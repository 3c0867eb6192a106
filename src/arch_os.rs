//! Architecture and operating-system pairs that assets and install specs are keyed by.
use vstd::prelude::*;
use crate::error::ErrorKind;
use crate::text::{chars_of, string_from, same_chars, concat};

verus! {

/// A processor architecture, or `Any`.
#[derive(Debug, PartialEq, Eq, Hash, Clone, Copy, Structural)]
pub enum Arch {
    Any,
    X86_64,
    X86,
    Aarch64,
}

/// An operating system, or `Any`.
#[derive(Debug, PartialEq, Eq, Hash, Clone, Copy, Structural)]
pub enum Os {
    Any,
    Linux,
    MacOs,
    Windows,
}

/// An (architecture, operating system) pair.
#[derive(Debug, PartialEq, Eq, Hash, Clone, Copy, Structural)]
pub struct ArchOs {
    pub arch: Arch,
    pub os: Os,
}

/// The lowercase name of an architecture.
pub open spec fn arch_name(a: Arch) -> Seq<char> {
    match a {
        Arch::Any => seq!['a', 'n', 'y'],
        Arch::X86_64 => seq!['x', '8', '6', '_', '6', '4'],
        Arch::X86 => seq!['x', '8', '6'],
        Arch::Aarch64 => seq!['a', 'a', 'r', 'c', 'h', '6', '4'],
    }
}

/// The lowercase name of an operating system.
pub open spec fn os_name(o: Os) -> Seq<char> {
    match o {
        Os::Any => seq!['a', 'n', 'y'],
        Os::Linux => seq!['l', 'i', 'n', 'u', 'x'],
        Os::MacOs => seq!['m', 'a', 'c', 'o', 's'],
        Os::Windows => seq!['w', 'i', 'n', 'd', 'o', 'w', 's'],
    }
}

/// The architecture whose name is `s`, if any.
pub open spec fn arch_named(s: Seq<char>) -> Option<Arch> {
    if s == arch_name(Arch::Any) {
        Some(Arch::Any)
    } else if s == arch_name(Arch::X86_64) {
        Some(Arch::X86_64)
    } else if s == arch_name(Arch::X86) {
        Some(Arch::X86)
    } else if s == arch_name(Arch::Aarch64) {
        Some(Arch::Aarch64)
    } else {
        None
    }
}

/// The operating system whose name is `s`, if any.
pub open spec fn os_named(s: Seq<char>) -> Option<Os> {
    if s == os_name(Os::Any) {
        Some(Os::Any)
    } else if s == os_name(Os::Linux) {
        Some(Os::Linux)
    } else if s == os_name(Os::MacOs) {
        Some(Os::MacOs)
    } else if s == os_name(Os::Windows) {
        Some(Os::Windows)
    } else {
        None
    }
}

/// The pieces of `s` between occurrences of `sep`, empty pieces included.
pub open spec fn tokens(s: Seq<char>, sep: char) -> Seq<Seq<char>>
    decreases s.len(),
{
    if s.len() == 0 {
        seq![Seq::<char>::empty()]
    } else {
        let p = tokens(s.drop_last(), sep);
        if s.last() == sep {
            p.push(Seq::<char>::empty())
        } else {
            p.update(p.len() - 1, p.last().push(s.last()))
        }
    }
}

/// The text form of a pair: `<arch>-<os>`.
pub open spec fn arch_os_text(a: ArchOs) -> Seq<char> {
    arch_name(a.arch) + seq!['-'] + os_name(a.os)
}

/// What `ArchOs::parse` gives for `t`: `any` alone, else `<arch>-<os>`, where an OS token
/// `unknown` is skipped in favour of the next one (`x86_64-unknown-linux-gnu`).
pub open spec fn parse_arch_os(t: Seq<char>) -> Option<ArchOs> {
    if t == arch_name(Arch::Any) {
        Some(ArchOs { arch: Arch::Any, os: Os::Any })
    } else {
        let toks = tokens(t, '-');
        if toks.len() < 2 {
            None
        } else {
            let os_tok = if toks[1] == seq!['u', 'n', 'k', 'n', 'o', 'w', 'n'] {
                if toks.len() < 3 {
                    None
                } else {
                    Some(toks[2])
                }
            } else {
                Some(toks[1])
            };
            match (arch_named(toks[0]), os_tok) {
                (Some(a), Some(o)) => match os_named(o) {
                    Some(os) => Some(ArchOs { arch: a, os }),
                    None => None,
                },
                _ => None,
            }
        }
    }
}

/// Splits `s` at each `sep`, keeping empty pieces.
pub fn split_tokens(s: &Vec<char>, sep: char) -> (r: Vec<Vec<char>>)
    ensures
        r@.map_values(|v: Vec<char>| v@) == tokens(s@, sep),
{
    let mut done: Vec<Vec<char>> = Vec::new();
    let mut cur: Vec<char> = Vec::new();
    let mut i: usize = 0;
    while i < s.len()
        invariant
            i <= s@.len(),
            done@.map_values(|v: Vec<char>| v@).push(cur@) == tokens(s@.subrange(0, i as int), sep),
        decreases s@.len() - i,
    {
        let ghost before = s@.subrange(0, i as int);
        let ghost old_done = done@.map_values(|v: Vec<char>| v@);
        let ghost old_cur = cur@;
        let c = s[i];
        assert(s@.subrange(0, i + 1).drop_last() =~= before);
        assert(s@.subrange(0, i + 1).last() == c);
        if c == sep {
            done.push(cur);
            cur = Vec::new();
            assert(done@.map_values(|v: Vec<char>| v@) =~= old_done.push(old_cur));
        } else {
            cur.push(c);
            assert(old_done.push(old_cur).update(old_done.len() as int, old_cur.push(c)) =~= old_done.push(cur@));
        }
        i += 1;
    }
    assert(s@.subrange(0, s@.len() as int) =~= s@);
    let ghost old_done = done@.map_values(|v: Vec<char>| v@);
    let ghost last = cur@;
    done.push(cur);
    assert(done@.map_values(|v: Vec<char>| v@) =~= old_done.push(last));
    done
}

} // verus!

verus! {

/// The architecture named by `s`.
fn arch_from(s: &Vec<char>) -> (r: Option<Arch>)
    ensures
        r == arch_named(s@),
{
    let any: Vec<char> = vec!['a', 'n', 'y'];
    let x86_64: Vec<char> = vec!['x', '8', '6', '_', '6', '4'];
    let x86: Vec<char> = vec!['x', '8', '6'];
    let aarch64: Vec<char> = vec!['a', 'a', 'r', 'c', 'h', '6', '4'];
    if same_chars(s, &any) {
        Some(Arch::Any)
    } else if same_chars(s, &x86_64) {
        Some(Arch::X86_64)
    } else if same_chars(s, &x86) {
        Some(Arch::X86)
    } else if same_chars(s, &aarch64) {
        Some(Arch::Aarch64)
    } else {
        None
    }
}

/// The operating system named by `s`.
fn os_from(s: &Vec<char>) -> (r: Option<Os>)
    ensures
        r == os_named(s@),
{
    let any: Vec<char> = vec!['a', 'n', 'y'];
    let linux: Vec<char> = vec!['l', 'i', 'n', 'u', 'x'];
    let macos: Vec<char> = vec!['m', 'a', 'c', 'o', 's'];
    let windows: Vec<char> = vec!['w', 'i', 'n', 'd', 'o', 'w', 's'];
    if same_chars(s, &any) {
        Some(Os::Any)
    } else if same_chars(s, &linux) {
        Some(Os::Linux)
    } else if same_chars(s, &macos) {
        Some(Os::MacOs)
    } else if same_chars(s, &windows) {
        Some(Os::Windows)
    } else {
        None
    }
}

/// The name of an architecture, as characters.
pub fn arch_chars(a: Arch) -> (r: Vec<char>)
    ensures
        r@ == arch_name(a),
{
    match a {
        Arch::Any => vec!['a', 'n', 'y'],
        Arch::X86_64 => vec!['x', '8', '6', '_', '6', '4'],
        Arch::X86 => vec!['x', '8', '6'],
        Arch::Aarch64 => vec!['a', 'a', 'r', 'c', 'h', '6', '4'],
    }
}

/// The name of an operating system, as characters.
pub fn os_chars(o: Os) -> (r: Vec<char>)
    ensures
        r@ == os_name(o),
{
    match o {
        Os::Any => vec!['a', 'n', 'y'],
        Os::Linux => vec!['l', 'i', 'n', 'u', 'x'],
        Os::MacOs => vec!['m', 'a', 'c', 'o', 's'],
        Os::Windows => vec!['w', 'i', 'n', 'd', 'o', 'w', 's'],
    }
}

impl ArchOs {
    /// The pair that matches every host.
    pub fn any() -> (r: ArchOs)
        ensures
            r == (ArchOs { arch: Arch::Any, os: Os::Any }),
    {
        ArchOs::new(Arch::Any, Os::Any)
    }

    pub fn new(arch: Arch, os: Os) -> (r: ArchOs)
        ensures
            r == (ArchOs { arch, os }),
    {
        ArchOs { arch, os }
    }

    /// The same OS, any architecture.
    pub fn with_any_arch(&self) -> (r: ArchOs)
        ensures
            r == (ArchOs { arch: Arch::Any, os: self.os }),
    {
        ArchOs { arch: Arch::Any, os: self.os }
    }

    /// The same architecture, any OS.
    pub fn with_any_os(&self) -> (r: ArchOs)
        ensures
            r == (ArchOs { arch: self.arch, os: Os::Any }),
    {
        ArchOs { arch: self.arch, os: Os::Any }
    }

    /// Reads `any`, `<arch>-<os>` or a target triple such as `x86_64-unknown-linux-gnu`.
    pub fn parse(text: &str) -> (r: Result<ArchOs, ErrorKind>)
        ensures
            match parse_arch_os(text@) {
                Some(a) => r == Ok::<ArchOs, ErrorKind>(a),
                None => r == Err::<ArchOs, ErrorKind>(ErrorKind::DescriptorParse),
            },
    {
        let t = chars_of(text);
        let any: Vec<char> = vec!['a', 'n', 'y'];
        if same_chars(&t, &any) {
            return Ok(ArchOs::any());
        }
        let toks = split_tokens(&t, '-');
        let ghost tv = toks@.map_values(|v: Vec<char>| v@);
        if toks.len() < 2 {
            return Err(ErrorKind::DescriptorParse);
        }
        assert(tv[0] == toks@[0]@ && tv[1] == toks@[1]@);
        let unknown: Vec<char> = vec!['u', 'n', 'k', 'n', 'o', 'w', 'n'];
        let os_tok: &Vec<char> = if same_chars(&toks[1], &unknown) {
            if toks.len() < 3 {
                return Err(ErrorKind::DescriptorParse);
            }
            assert(tv[2] == toks@[2]@);
            &toks[2]
        } else {
            &toks[1]
        };
        match (arch_from(&toks[0]), os_from(os_tok)) {
            (Some(arch), Some(os)) => Ok(ArchOs { arch, os }),
            _ => Err(ErrorKind::DescriptorParse),
        }
    }

    /// The text form `<arch>-<os>`.
    pub fn to_str(&self) -> (r: String)
        ensures
            r@ == arch_os_text(*self),
    {
        let dash: Vec<char> = vec!['-'];
        let a = arch_chars(self.arch);
        let o = os_chars(self.os);
        let head = concat(&a, &dash);
        let all = concat(&head, &o);
        string_from(&all)
    }
}

} // verus!

verus! {

/// The separator of the `PATH` list on a host: `;` on Windows, `:` elsewhere.
pub fn path_separator(host_os: Os) -> (r: String)
    ensures
        r@ == (if host_os == Os::Windows { seq![';'] } else { seq![':'] }),
{
    let c: Vec<char> = if host_os == Os::Windows { vec![';'] } else { vec![':'] };
    string_from(&c)
}

} // verus!
