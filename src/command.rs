use vstd::prelude::*;

use crate::text::same_text;

verus! {

/// An operator's request to view the scene from another frame.
#[derive(Clone, Copy, Debug, PartialEq, Eq, Structural)]
pub enum FrameCommand {
    /// View the scene from the main frame.
    Main,
    /// View the scene from the rest frame of the object with the given index.
    Object(usize),
}

pub open spec fn is_digit(c: char) -> bool {
    '0' <= c && c <= '9'
}

pub open spec fn digit_value(c: char) -> nat {
    (c as u32 - '0' as u32) as nat
}

/// The number that a string of decimal digits writes.
pub open spec fn digits_value(s: Seq<char>) -> nat
    decreases s.len(),
{
    if s.len() == 0 {
        0
    } else {
        digits_value(s.drop_last()) * 10 + digit_value(s.last())
    }
}

/// A line without its line break (`"\n"` or `"\r\n"`), if it ends in one.
pub open spec fn line_body(line: Seq<char>) -> Seq<char> {
    if line.len() >= 2 && line[line.len() - 2] == '\r' && line[line.len() - 1] == '\n' {
        line.take(line.len() - 2)
    } else if line.len() >= 1 && line[line.len() - 1] == '\n' {
        line.drop_last()
    } else {
        line
    }
}

/// The command that a line holds: `set-frame main`, or `set-frame ` followed by
/// the decimal index of an object that fits a machine word.
pub open spec fn command_of(line: Seq<char>) -> Option<FrameCommand> {
    let body = line_body(line);
    let prefix = "set-frame "@;
    let arg = body.skip(prefix.len() as int);
    if body == "set-frame main"@ {
        Some(FrameCommand::Main)
    } else if body.len() > prefix.len() && body.take(prefix.len() as int) == prefix && (forall|
        i: int,
    | 0 <= i < arg.len() ==> is_digit(#[trigger] arg[i])) && digits_value(arg) <= usize::MAX {
        Some(FrameCommand::Object(digits_value(arg) as usize))
    } else {
        None
    }
}

proof fn lemma_digits_grow(s: Seq<char>, k: int)
    requires
        0 <= k <= s.len(),
    ensures
        digits_value(s) >= digits_value(s.take(k)),
    decreases s.len(),
{
    if k < s.len() {
        lemma_digits_grow(s.drop_last(), k);
        assert(s.drop_last().take(k) =~= s.take(k));
    } else {
        assert(s.take(k) =~= s);
    }
}

/// Reads one line of the control channel.
pub fn parse_command(line: &str) -> (r: Option<FrameCommand>)
    ensures
        r == command_of(line@),
{
    proof {
        reveal_strlit("set-frame ");
        reveal_strlit("set-frame main");
    }
    let n = line.unicode_len();
    let mut end = n;
    if end >= 1 && line.get_char(end - 1) == '\n' {
        end = end - 1;
        if end >= 1 && line.get_char(end - 1) == '\r' {
            end = end - 1;
        }
    }
    let body = line.substring_char(0, end);
    assert(body@ =~= line_body(line@));
    if same_text(body, "set-frame main") {
        return Some(FrameCommand::Main);
    }
    let plen: usize = 10;
    if end <= plen {
        return None;
    }
    let head = body.substring_char(0, plen);
    if !same_text(head, "set-frame ") {
        return None;
    }
    assert(head@ =~= body@.take(10));
    let ghost arg = body@.skip(10);
    let mut value: usize = 0;
    let mut i: usize = plen;
    while i < end
        invariant
            body@ == line_body(line@),
            body@ != "set-frame main"@,
            body@.take(10) == "set-frame "@,
            "set-frame "@.len() == 10,
            end == body@.len(),
            plen == 10 <= i <= end,
            arg == body@.skip(10),
            forall|j: int| 0 <= j < i - 10 ==> is_digit(#[trigger] arg[j]),
            value as nat == digits_value(arg.take(i - 10)),
        decreases end - i,
    {
        let c = body.get_char(i);
        if !('0' <= c && c <= '9') {
            assert(!is_digit(arg[i - 10]));
            return None;
        }
        let d = (c as u32 - '0' as u32) as usize;
        proof {
            let t = arg.take(i + 1 - 10);
            assert(t.drop_last() =~= arg.take(i - 10));
            assert(t.last() == c);
        }
        match value.checked_mul(10) {
            None => {
                proof {
                    lemma_digits_grow(arg, i + 1 - 10);
                }
                return None;
            },
            Some(v) => match v.checked_add(d) {
                None => {
                    proof {
                        lemma_digits_grow(arg, i + 1 - 10);
                    }
                    return None;
                },
                Some(v2) => {
                    value = v2;
                },
            },
        }
        i = i + 1;
    }
    assert(arg.take(end - 10) =~= arg);
    Some(FrameCommand::Object(value))
}

} // verus!
