//! The text of private, single-use launch scripts: bulk shell input never
//! enters a pre-ready PTY; the shell sources a script instead.
use vstd::prelude::*;
use vstd::string::StringExecFns;

use crate::text::{chars_of, string_of};

verus! {

/// The longest source command, in bytes, that may be typed into a PTY.
pub const MAX_SOURCE_COMMAND_BYTES: usize = 256;

/// `s` without its leading `-` characters (a login shell's name starts with one).
pub open spec fn without_leading_dashes(s: Seq<char>) -> Seq<char>
    decreases s.len(),
{
    if s.len() > 0 && s[0] == '-' {
        without_leading_dashes(s.drop_first())
    } else {
        s
    }
}

/// The shells that can source a script with `.`.
pub open spec fn is_posix_shell_name(s: Seq<char>) -> bool {
    s == "sh"@ || s == "bash"@ || s == "zsh"@ || s == "dash"@ || s == "ksh"@ || s == "mksh"@
}

/// `value` with each `'` written as `'\''`.
pub open spec fn escaped(value: Seq<char>) -> Seq<char>
    decreases value.len(),
{
    if value.len() == 0 {
        Seq::empty()
    } else {
        let rest = escaped(value.drop_last());
        if value.last() == '\'' {
            rest + seq!['\'', '\\', '\'', '\'']
        } else {
            rest.push(value.last())
        }
    }
}

/// `value` as one single-quoted shell word.
pub open spec fn quoted(value: Seq<char>) -> Seq<char> {
    seq!['\''] + escaped(value) + seq!['\'']
}

/// The preparation steps of a launch script, each a group that must succeed.
pub open spec fn preparation_text(preparation: Seq<Seq<char>>) -> Seq<char>
    decreases preparation.len(),
{
    if preparation.len() == 0 {
        Seq::empty()
    } else {
        preparation_text(preparation.drop_last()) + "{ "@ + preparation.last() + "\n} &&\n"@
    }
}

/// The launch script: it removes itself before anything runs, runs the
/// preparation steps and the command as one group, and records the group's
/// exit status in the `finished` file.
pub open spec fn launch_script(
    script_path: Seq<char>,
    command: Seq<char>,
    preparation: Seq<Seq<char>>,
    finished_path: Seq<char>,
) -> Seq<char> {
    "command /bin/rm -- "@ + quoted(script_path) + " || return\n"@ + "{\n"@ + preparation_text(
        preparation,
    ) + command + "\n}\n"@ + "printf '%s\\n' \"$?\" > "@ + quoted(finished_path) + "\n"@
}

/// The shell's name without its login dash, when it is a POSIX shell that can source a script.
pub fn startup_shell(shell: &str) -> (r: Option<String>)
    ensures
        is_posix_shell_name(without_leading_dashes(shell@)) ==> r is Some && r->0@
            == without_leading_dashes(shell@),
        !is_posix_shell_name(without_leading_dashes(shell@)) ==> r is None,
{
    let v = chars_of(shell);
    let mut i: usize = 0;
    assert(v@.skip(0) =~= v@);
    while i < v.len() && v[i] == '-'
        invariant
            i <= v.len(),
            v@ == shell@,
            without_leading_dashes(v@.skip(i as int)) == without_leading_dashes(shell@),
        decreases v.len() - i,
    {
        assert(v@.skip(i as int).drop_first() =~= v@.skip(i + 1));
        i = i + 1;
    }
    let mut name: Vec<char> = Vec::new();
    let mut j: usize = i;
    while j < v.len()
        invariant
            i <= j <= v.len(),
            name@ == v@.subrange(i as int, j as int),
        decreases v.len() - j,
    {
        name.push(v[j]);
        j = j + 1;
        assert(name@ =~= v@.subrange(i as int, j as int));
    }
    assert(name@ =~= v@.skip(i as int));
    let name = string_of(name.as_slice());
    let s = name.as_str();
    if crate::text::str_equal(s, "sh") || crate::text::str_equal(s, "bash") || crate::text::str_equal(
        s,
        "zsh",
    ) || crate::text::str_equal(s, "dash") || crate::text::str_equal(s, "ksh")
        || crate::text::str_equal(s, "mksh") {
        Some(name)
    } else {
        None
    }
}

/// `value` as one single-quoted shell word.
pub fn quote(value: &str) -> (r: String)
    ensures
        r@ == quoted(value@),
{
    let v = chars_of(value);
    let mut out: Vec<char> = Vec::new();
    out.push('\'');
    let mut i: usize = 0;
    while i < v.len()
        invariant
            i <= v.len(),
            v@ == value@,
            out@ == seq!['\''] + escaped(v@.take(i as int)),
        decreases v.len() - i,
    {
        proof {
            assert(v@.take(i + 1).drop_last() =~= v@.take(i as int));
            assert(v@.take(i + 1).last() == v@[i as int]);
        }
        if v[i] == '\'' {
            out.push('\'');
            out.push('\\');
            out.push('\'');
            out.push('\'');
        } else {
            out.push(v[i]);
        }
        i = i + 1;
        assert(out@ =~= seq!['\''] + escaped(v@.take(i as int)));
    }
    out.push('\'');
    assert(v@.take(v.len() as int) =~= v@);
    assert(out@ =~= quoted(value@));
    string_of(out.as_slice())
}

/// The command that sources the script at `script_path`, unless its UTF-8
/// encoding is too long to type safely into a PTY.
pub fn source_command(script_path: &str) -> (r: Option<String>)
    ensures
        r is Some <==> (vstd::utf8::encode_utf8(". "@ + quoted(script_path@)).len() as usize)
            <= MAX_SOURCE_COMMAND_BYTES,
        r is Some ==> r->0@ == ". "@ + quoted(script_path@),
{
    let mut command = String::from_str(". ");
    let q = quote(script_path);
    command.append(q.as_str());
    if command.as_str().len() > MAX_SOURCE_COMMAND_BYTES {
        None
    } else {
        Some(command)
    }
}

/// The text of the launch script.
pub fn launch_script_text(
    script_path: &str,
    command: &str,
    preparation: &Vec<String>,
    finished_path: &str,
) -> (r: String)
    ensures
        r@ == launch_script(
            script_path@,
            command@,
            preparation@.map_values(|p: String| p@),
            finished_path@,
        ),
{
    let ghost steps = preparation@.map_values(|p: String| p@);
    let mut text = String::from_str("command /bin/rm -- ");
    let q = quote(script_path);
    text.append(q.as_str());
    text.append(" || return\n");
    text.append("{\n");
    let ghost head = text@;
    let mut i: usize = 0;
    assert(steps.take(0) =~= Seq::<Seq<char>>::empty());
    assert(head + preparation_text(steps.take(0)) =~= head);
    while i < preparation.len()
        invariant
            i <= preparation.len(),
            steps == preparation@.map_values(|p: String| p@),
            text@ == head + preparation_text(steps.take(i as int)),
        decreases preparation.len() - i,
    {
        proof {
            assert(steps.take(i + 1).drop_last() =~= steps.take(i as int));
            assert(steps.take(i + 1).last() == preparation@[i as int]@);
        }
        text.append("{ ");
        text.append(preparation[i].as_str());
        text.append("\n} &&\n");
        i = i + 1;
        assert(text@ =~= head + preparation_text(steps.take(i as int)));
    }
    assert(steps.take(preparation.len() as int) =~= steps);
    text.append(command);
    text.append("\n}\n");
    text.append("printf '%s\\n' \"$?\" > ");
    let f = quote(finished_path);
    text.append(f.as_str());
    text.append("\n");
    assert(text@ =~= launch_script(script_path@, command@, steps, finished_path@));
    text
}

/// The number that the decimal digits `d` spell.
pub open spec fn digits_value(d: Seq<char>) -> nat
    decreases d.len(),
{
    if d.len() == 0 {
        0
    } else {
        digits_value(d.drop_last()) * 10 + ((d.last() as nat) - ('0' as nat)) as nat
    }
}

/// `s` without the `+` sign it may start with.
pub open spec fn unsigned_digits(s: Seq<char>) -> Seq<char> {
    if s.len() > 0 && s[0] == '+' {
        s.drop_first()
    } else {
        s
    }
}

/// An ASCII decimal digit.
pub open spec fn is_digit(c: char) -> bool {
    '0' <= c && c <= '9'
}

/// `s` is what `str::parse::<u8>` accepts: an optional `+`, then one or more
/// ASCII digits whose value is at most 255.
pub open spec fn parses_as_u8(s: Seq<char>) -> bool {
    let d = unsigned_digits(s);
    &&& d.len() > 0
    &&& forall|i: int| 0 <= i < d.len() ==> is_digit(#[trigger] d[i])
    &&& digits_value(d) <= 255
}

/// Whether the text of a launch's `finished` file records an exit status:
/// trimmed, it is a number from 0 to 255.
pub fn finish_marker_valid(text: &str) -> (r: bool)
    ensures
        r == parses_as_u8(crate::text::trimmed(text@)),
{
    let v = chars_of(text);
    let t = crate::text::trim_chars(v.as_slice());
    let ghost s = t@;
    let start: usize = if t.len() > 0 && t[0] == '+' {
        1
    } else {
        0
    };
    let ghost d = unsigned_digits(s);
    assert(d =~= s.skip(start as int));
    if start >= t.len() {
        return false;
    }
    let mut value: u64 = 0;
    let mut i: usize = start;
    while i < t.len()
        invariant
            start <= i <= t.len(),
            s == t@,
            s == crate::text::trimmed(text@),
            d == unsigned_digits(s),
            d == s.skip(start as int),
            forall|j: int| 0 <= j < i - start ==> is_digit(#[trigger] d[j]),
            value == if digits_value(d.take(i - start)) > 255 {
                256
            } else {
                digits_value(d.take(i - start))
            },
        decreases t.len() - i,
    {
        let c = t[i];
        if c < '0' || c > '9' {
            assert(!is_digit(d[i - start]));
            return false;
        }
        proof {
            let k = (i - start) as int;
            assert(d.take(k + 1).drop_last() =~= d.take(k));
            assert(d.take(k + 1).last() == c);
        }
        let digit = (c as u32 - '0' as u32) as u64;
        if value > 255 {
            value = 256;
        } else {
            value = value * 10 + digit;
            if value > 255 {
                value = 256;
            }
        }
        i = i + 1;
    }
    assert(d.take(t.len() - start) =~= d);
    value <= 255
}

/// The name of a launch directory: `herdr-start-{pid}-{stamp:x}-{sequence:x}`,
/// from the daemon's process id, the wall-clock time in nanoseconds and a
/// sequence number of the daemon.
pub open spec fn launch_directory_text(pid: nat, stamp: nat, sequence: nat) -> Seq<char> {
    "herdr-start-"@ + crate::text::decimal_text(pid) + "-"@ + crate::text::hex_text(stamp) + "-"@
        + crate::text::hex_text(sequence)
}

/// The name of the launch directory of a new ticket.
pub fn launch_directory_name(pid: u32, stamp: u128, sequence: u64) -> (r: String)
    ensures
        r@ == launch_directory_text(pid as nat, stamp as nat, sequence as nat),
{
    let mut v: Vec<char> = Vec::new();
    let prefix = chars_of("herdr-start-");
    let mut i: usize = 0;
    while i < prefix.len()
        invariant
            i <= prefix.len(),
            v@ == prefix@.take(i as int),
        decreases prefix.len() - i,
    {
        v.push(prefix[i]);
        i = i + 1;
        assert(v@ =~= prefix@.take(i as int));
    }
    assert(prefix@.take(prefix.len() as int) =~= prefix@);
    crate::text::push_decimal(&mut v, pid as u64);
    v.push('-');
    crate::text::push_hex(&mut v, stamp);
    v.push('-');
    crate::text::push_hex(&mut v, sequence as u128);
    proof {
        reveal_strlit("herdr-start-");
        reveal_strlit("-");
        assert(v@ =~= launch_directory_text(pid as nat, stamp as nat, sequence as nat));
    }
    string_of(v.as_slice())
}

/// One preparation step as the launch script writes it: a group that must
/// succeed before anything after it runs.
pub open spec fn guarded_step(step: Seq<char>) -> Seq<char> {
    "{ "@ + step + "\n} &&\n"@
}

proof fn lemma_preparation_text_guards_each_step(steps: Seq<Seq<char>>)
    ensures
        preparation_text(steps) == steps.map_values(|p: Seq<char>| guarded_step(p)).flatten_alt(),
    decreases steps.len(),
{
    let g = |p: Seq<char>| guarded_step(p);
    if steps.len() > 0 {
        lemma_preparation_text_guards_each_step(steps.drop_last());
        assert(steps.map_values(g).drop_last() =~= steps.drop_last().map_values(g));
        assert(preparation_text(steps) =~= preparation_text(steps.drop_last()) + guarded_step(
            steps.last(),
        ));
    } else {
        assert(steps.map_values(g) =~= Seq::<Seq<char>>::empty());
    }
}

/// Every preparation step guards the command: the launch script removes
/// itself, then runs each step, in order, as `{ step\n} &&`, so that the
/// command runs only when all of them succeeded, and records the exit status.
pub proof fn law_every_preparation_step_guards_the_command(
    script_path: Seq<char>,
    command: Seq<char>,
    steps: Seq<Seq<char>>,
    finished_path: Seq<char>,
)
    ensures
        preparation_text(steps) == steps.map_values(|p: Seq<char>| guarded_step(p)).flatten(),
        launch_script(script_path, command, steps, finished_path) == "command /bin/rm -- "@
            + quoted(script_path) + " || return\n{\n"@ + steps.map_values(
            |p: Seq<char>| guarded_step(p),
        ).flatten() + command + "\n}\nprintf '%s\\n' \"$?\" > "@ + quoted(finished_path) + "\n"@,
{
    lemma_preparation_text_guards_each_step(steps);
    steps.map_values(|p: Seq<char>| guarded_step(p)).lemma_flatten_and_flatten_alt_are_equivalent();
    reveal_strlit("command /bin/rm -- ");
    reveal_strlit(" || return\n");
    reveal_strlit("{\n");
    reveal_strlit(" || return\n{\n");
    reveal_strlit("\n}\n");
    reveal_strlit("printf '%s\\n' \"$?\" > ");
    reveal_strlit("\n}\nprintf '%s\\n' \"$?\" > ");
    assert(launch_script(script_path, command, steps, finished_path) =~= "command /bin/rm -- "@
        + quoted(script_path) + " || return\n{\n"@ + preparation_text(steps) + command
        + "\n}\nprintf '%s\\n' \"$?\" > "@ + quoted(finished_path) + "\n"@);
}

} // verus!
