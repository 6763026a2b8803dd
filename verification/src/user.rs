use vstd::prelude::*;

verus! {

/// Line feed.
pub const LF: u8 = 0x0au8;

/// Carriage return.
pub const CR: u8 = 0x0du8;

/// Delete.
pub const DL: u8 = 0x7fu8;

/// Backspace.
pub const BS: u8 = 0x08u8;

/// What the shell does after it reads a character.
pub enum ShellAction {
    /// End the line on the screen and run the command, which ends in `'\0'`;
    /// then show a new prompt.
    Execute(Vec<char>),
    /// End the line on the screen and show a new prompt.
    Prompt,
    /// Erase the last character on the screen.
    Erase,
    /// Show the character.
    Echo(char),
    /// Nothing.
    Ignore,
}

/// The character that byte `c` stands for.
pub open spec fn byte_char(c: u8) -> char {
    c as char
}

/// The shell's reaction to byte `c` when the line typed so far is `line`;
/// `line` becomes what is typed after it.
///
/// A line feed or carriage return runs a non-empty line, with `'\0'`
/// appended, and empties it; a backspace or delete removes the last
/// character, if any; any other byte is added to the line as a character.
pub fn shell_step(line: &mut Vec<char>, c: u8) -> (action: ShellAction)
    ensures
        c == LF || c == CR ==> if old(line)@.len() > 0 {
            &&& action matches ShellAction::Execute(cmd) && cmd@ == old(line)@.push('\0')
            &&& final(line)@.len() == 0
        } else {
            action is Prompt && final(line)@ == old(line)@
        },
        c == BS || c == DL ==> if old(line)@.len() > 0 {
            action is Erase && final(line)@ == old(line)@.drop_last()
        } else {
            action is Ignore && final(line)@ == old(line)@
        },
        c != LF && c != CR && c != BS && c != DL ==> {
            &&& action matches ShellAction::Echo(ch) && ch == byte_char(c) && ch as u32 == c as u32
                && final(line)@ == old(line)@.push(ch)
            &&& final(line)@ == old(line)@.push(byte_char(c))
            &&& final(line)@.len() == old(line)@.len() + 1
            &&& final(line)@.last() as u32 == c as u32
        },
{
    if c == LF || c == CR {
        if line.len() > 0 {
            let mut command = line.clone();
            command.push('\0');
            line.clear();
            proof {
                assert(command@ =~= old(line)@.push('\0'));
            }
            ShellAction::Execute(command)
        } else {
            ShellAction::Prompt
        }
    } else if c == BS || c == DL {
        if line.len() > 0 {
            line.pop();
            ShellAction::Erase
        } else {
            ShellAction::Ignore
        }
    } else {
        let ch = c as char;
        line.push(ch);
        ShellAction::Echo(ch)
    }
}

/// The character that a typed byte stands for has that byte as its code:
/// no byte is translated, so the shell echoes and keeps exactly what was
/// typed.
pub proof fn lemma_byte_char_code(c: u8)
    ensures
        byte_char(c) as u32 == c as u32,
{
}

/// Typing bytes other than line ends and erasures one after another builds
/// the line from their characters in order: the line after typing `typed`
/// on top of `line` is `line` followed by the characters whose codes are
/// the typed bytes.
pub proof fn lemma_typed_line(line: Seq<char>, typed: Seq<u8>)
    ensures
        typed_line(line, typed).len() == line.len() + typed.len(),
        typed_line(line, typed).subrange(0, line.len() as int) == line,
        forall|i: int|
            0 <= i < typed.len() ==> #[trigger] typed_line(line, typed)[line.len() + i] as u32
                == typed[i] as u32,
    decreases typed.len(),
{
    if typed.len() > 0 {
        let pre = typed.drop_last();
        lemma_typed_line(line, pre);
        let t = typed_line(line, pre);
        let c = typed.last();
        lemma_byte_char_code(c);
        assert(typed_line(line, typed) == t.push(byte_char(c)));
        assert(t.push(byte_char(c)).subrange(0, line.len() as int) =~= t.subrange(
            0,
            line.len() as int,
        ));
        assert forall|i: int| 0 <= i < typed.len() implies #[trigger] typed_line(line, typed)[line.len()
            + i] as u32 == typed[i] as u32 by {
            if i < pre.len() {
                assert(typed_line(line, pre)[line.len() + i] as u32 == pre[i] as u32);
            }
        }
    }
}

/// The line after typing each byte of `typed`, in order, on top of `line`,
/// as `shell_step` keeps it for bytes other than line ends and erasures.
pub open spec fn typed_line(line: Seq<char>, typed: Seq<u8>) -> Seq<char>
    decreases typed.len(),
{
    if typed.len() == 0 {
        line
    } else {
        typed_line(line, typed.drop_last()).push(byte_char(typed.last()))
    }
}

/// Erasing right after typing a character gives back the line as it was
/// before the character was typed.
pub proof fn lemma_echo_then_erase(line: Seq<char>, c: u8)
    requires
        c != LF && c != CR && c != BS && c != DL,
    ensures
        line.push(byte_char(c)).len() > 0,
        line.push(byte_char(c)).drop_last() == line,
{
    assert(line.push(byte_char(c)).drop_last() =~= line);
}

/// The exit code of the shell's child when running a command failed:
/// `exec` returns only when it fails, with `-1`, and the child then reports
/// the error and exits with `-4`.
pub fn shell_exec_failed(exec_result: isize) -> (exit_code: i32)
    requires
        exec_result == -1,
    ensures
        exit_code == -4,
{
    -4
}

/// What the shell reports once the child `pid` it waited for has exited:
/// the child that `waitpid` gives back must be that child, and the report
/// names it with its exit code.
pub fn shell_child_exited(pid: isize, exit_pid: isize, exit_code: i32) -> (report: (isize, i32))
    requires
        pid == exit_pid,
    ensures
        report == (pid, exit_code),
{
    (exit_pid, exit_code)
}

/// What the first user process does after waiting for a child.
pub enum InitAction {
    /// No child has exited: give up the processor and wait again.
    Yield,
    /// A zombie child with this process id and exit code was released:
    /// report it.
    Released(isize, i32),
}

/// The first user process's reaction to `wait` returning `pid` with
/// `exit_code`: `-1` means that no child has exited yet.
pub fn initproc_step(pid: isize, exit_code: i32) -> (action: InitAction)
    ensures
        pid == -1 ==> action is Yield,
        pid != -1 ==> action == InitAction::Released(pid, exit_code),
{
    if pid == -1 {
        InitAction::Yield
    } else {
        InitAction::Released(pid, exit_code)
    }
}

} // verus!
