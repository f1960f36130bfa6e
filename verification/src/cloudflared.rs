//! Decisions around the `cloudflared` system service: how a privileged
//! command is launched, the command text for the macOS administrator dialog,
//! and whether `id -u` reports root.
use vstd::prelude::*;
use vstd::utf8::{decode_utf8, valid_utf8};

use crate::text::{append_chars, append_str, parse_unsigned, parse_unsigned_chars, string_from_chars, trim, trim_chars};

verus! {

/// The `cloudflared` system service.
#[derive(Clone, Debug)]
pub struct CloudflaredService;

/// How a command that needs administrator rights is started on Linux.
#[derive(Debug, Clone, Copy, PartialEq, Eq, Structural)]
pub enum Launcher {
    /// The process already runs as root: run the command itself.
    Direct,
    /// A graphical session: `pkexec` shows an authentication dialog.
    Pkexec,
    /// A terminal: fall back to `sudo`.
    Sudo,
}

/// Picks how to start a privileged command on Linux: directly as root, with
/// `pkexec` in a graphical session (`DISPLAY` or `WAYLAND_DISPLAY` set), else
/// with `sudo`.
pub fn choose_launcher(is_root: bool, has_display: bool) -> (r: Launcher)
    ensures
        r == (if is_root {
            Launcher::Direct
        } else if has_display {
            Launcher::Pkexec
        } else {
            Launcher::Sudo
        }),
{
    if is_root {
        Launcher::Direct
    } else if has_display {
        Launcher::Pkexec
    } else {
        Launcher::Sudo
    }
}

/// `std::str::from_utf8`, as characters: `None` when the bytes are not valid
/// UTF-8, as the std documentation states.
#[verifier::external_body]
pub(crate) fn utf8_strict(b: &[u8]) -> (r: Option<Vec<char>>)
    ensures
        r is Some <==> valid_utf8(b@),
        r matches Some(cs) ==> cs@ == decode_utf8(b@),
{
    match std::str::from_utf8(b) {
        Ok(s) => Some(s.chars().collect()),
        Err(_) => None,
    }
}

/// `true` when the output of `id -u` is valid UTF-8 that, trimmed, reads as
/// the `u32` 0.
pub open spec fn spec_is_root_output(stdout: Seq<u8>) -> bool {
    valid_utf8(stdout) && parse_unsigned(trim(decode_utf8(stdout)), u32::MAX as nat) == Some(0nat)
}

/// Whether the output of `id -u` names the root user: it must be UTF-8 and,
/// once trimmed, read as the user id 0.
pub fn is_root_output(stdout: &[u8]) -> (r: bool)
    ensures
        r == spec_is_root_output(stdout@),
{
    match utf8_strict(stdout) {
        Some(text) => {
            let t = trim_chars(&text);
            match parse_unsigned_chars(&t, 4294967295u64) {
                Some(uid) => uid == 0,
                None => false,
            }
        },
        None => false,
    }
}

/// The escaped form of one character: a backslash before `\`, `"` and `` ` ``.
pub open spec fn escape_char(c: char) -> Seq<char> {
    if c == '\\' || c == '"' || c == '`' {
        seq!['\\', c]
    } else {
        seq![c]
    }
}

/// Every character of `s` escaped.
pub open spec fn escaped(s: Seq<char>) -> Seq<char>
    decreases s.len(),
{
    if s.len() == 0 {
        Seq::empty()
    } else {
        escaped(s.drop_last()) + escape_char(s.last())
    }
}

/// `s` escaped and wrapped in double quotes.
pub open spec fn spec_shell_escape(s: Seq<char>) -> Seq<char> {
    seq!['"'] + escaped(s) + seq!['"']
}

/// Appends `s`, escaped and quoted, to `out`.
fn push_escaped(out: &mut Vec<char>, s: &str)
    ensures
        final(out)@ == old(out)@ + spec_shell_escape(s@),
{
    let cs = crate::text::str_chars(s);
    let ghost start = out@;
    out.push('"');
    let mut i: usize = 0;
    assert(cs@.take(0) =~= Seq::<char>::empty());
    while i < cs.len()
        invariant
            i <= cs@.len(),
            cs@ == s@,
            out@ =~= start + seq!['"'] + escaped(cs@.take(i as int)),
        decreases cs@.len() - i,
    {
        let c = cs[i];
        if c == '\\' || c == '"' || c == '`' {
            out.push('\\');
        }
        out.push(c);
        assert(cs@.take(i + 1).drop_last() =~= cs@.take(i as int));
        assert(cs@.take(i + 1).last() == c);
        i = i + 1;
    }
    assert(cs@.take(cs@.len() as int) =~= cs@);
    out.push('"');
}

/// Minimal shell escaping for the macOS administrator dialog: wraps `s` in
/// double quotes and puts a backslash before every backslash, double quote
/// and backtick.
pub fn shell_escape(s: &str) -> (r: String)
    ensures
        r@ == spec_shell_escape(s@),
{
    let mut out: Vec<char> = Vec::new();
    push_escaped(&mut out, s);
    assert(out@ =~= spec_shell_escape(s@));
    string_from_chars(&out)
}

/// The escaped arguments separated by single spaces.
pub open spec fn joined_escaped(args: Seq<Seq<char>>) -> Seq<char>
    decreases args.len(),
{
    if args.len() == 0 {
        Seq::empty()
    } else if args.len() == 1 {
        spec_shell_escape(args[0])
    } else {
        joined_escaped(args.drop_last()) + seq![' '] + spec_shell_escape(args.last())
    }
}

/// The texts of the arguments.
pub open spec fn arg_texts(args: Seq<&str>) -> Seq<Seq<char>> {
    args.map_values(|a: &str| a@)
}

/// The shell command run through the dialog: the escaped program, followed
/// by the escaped arguments when there are any.
pub open spec fn spec_shell_command(program: Seq<char>, args: Seq<Seq<char>>) -> Seq<char> {
    if args.len() == 0 {
        spec_shell_escape(program)
    } else {
        spec_shell_escape(program) + seq![' '] + joined_escaped(args)
    }
}

/// `do shell script "`
pub open spec fn script_head() -> Seq<char> {
    seq!['d', 'o', ' ', 's', 'h', 'e', 'l', 'l', ' ', 's', 'c', 'r', 'i', 'p', 't', ' ', '"']
}

/// `" with administrator privileges`
pub open spec fn script_tail() -> Seq<char> {
    seq![
        '"', ' ', 'w', 'i', 't', 'h', ' ', 'a', 'd', 'm', 'i', 'n', 'i', 's', 't', 'r', 'a', 't',
        'o', 'r', ' ', 'p', 'r', 'i', 'v', 'i', 'l', 'e', 'g', 'e', 's',
    ]
}

/// The AppleScript that runs `program args` with administrator privileges on
/// macOS: `do shell script "<command>" with administrator privileges`, the
/// program and each argument escaped with `shell_escape`.
pub fn administrator_script(program: &str, args: &[&str]) -> (r: String)
    ensures
        r@ == script_head() + spec_shell_command(program@, arg_texts(args@)) + script_tail(),
{
    let ghost a = arg_texts(args@);
    let mut out: Vec<char> = Vec::new();
    append_chars(
        &mut out,
        &['d', 'o', ' ', 's', 'h', 'e', 'l', 'l', ' ', 's', 'c', 'r', 'i', 'p', 't', ' ', '"'],
    );
    push_escaped(&mut out, program);
    let ghost head = out@;
    if args.len() > 0 {
        out.push(' ');
    }
    let ghost mid = out@;
    let mut i: usize = 0;
    assert(a.take(0) =~= Seq::<Seq<char>>::empty());
    while i < args.len()
        invariant
            a == arg_texts(args@),
            i <= args@.len(),
            out@ =~= mid + joined_escaped(a.take(i as int)),
        decreases args@.len() - i,
    {
        if i > 0 {
            out.push(' ');
        }
        push_escaped(&mut out, args[i]);
        proof {
            let t = a.take(i + 1);
            assert(t.drop_last() =~= a.take(i as int));
            assert(t.last() == args@[i as int]@);
            if i == 0 {
                assert(t.len() == 1);
            }
        }
        i = i + 1;
    }
    assert(a.take(args@.len() as int) =~= a);
    append_chars(
        &mut out,
        &[
            '"', ' ', 'w', 'i', 't', 'h', ' ', 'a', 'd', 'm', 'i', 'n', 'i', 's', 't', 'r', 'a',
            't', 'o', 'r', ' ', 'p', 'r', 'i', 'v', 'i', 'l', 'e', 'g', 'e', 's',
        ],
    );
    assert(out@ =~= script_head() + spec_shell_command(program@, a) + script_tail());
    string_from_chars(&out)
}

} // verus!
