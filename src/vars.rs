//! `${name}` substitution in install-spec paths.
use vstd::prelude::*;
use crate::arch_os::Os;
use crate::error::ErrorKind;
use crate::text::{chars_of, string_from, concat, matches_at, find_in, contains, slice, same_chars};

verus! {

/// Variable names and their values, applied in order.
pub type VarsMap = Vec<(String, String)>;

/// `s` with every occurrence of `p` replaced by `r`, scanning left to right without overlap.
pub open spec fn replace_all(s: Seq<char>, p: Seq<char>, r: Seq<char>) -> Seq<char>
    decreases s.len(),
{
    if p.len() == 0 || s.len() < p.len() {
        s
    } else if s.subrange(0, p.len() as int) == p {
        r + replace_all(s.subrange(p.len() as int, s.len() as int), p, r)
    } else {
        seq![s[0]] + replace_all(s.subrange(1, s.len() as int), p, r)
    }
}

/// The token `${name}`.
pub open spec fn var_token(name: Seq<char>) -> Seq<char> {
    seq!['$', '{'] + name + seq!['}']
}

/// How many characters of `t` come before its first `}` (all of them when it has none).
pub open spec fn close_len(t: Seq<char>) -> nat
    decreases t.len(),
{
    if t.len() == 0 {
        0
    } else if t[0] == '}' {
        0
    } else {
        1 + close_len(t.drop_first())
    }
}

/// The value of the first variable of `vars` named `name`.
pub open spec fn lookup_var(vars: Seq<(Seq<char>, Seq<char>)>, name: Seq<char>) -> Option<Seq<char>>
    decreases vars.len(),
{
    if vars.len() == 0 {
        None
    } else if vars[0].0 == name {
        Some(vars[0].1)
    } else {
        lookup_var(vars.drop_first(), name)
    }
}

/// `s` with each `${name}` token of `s` whose name is a variable of `vars` replaced by its
/// value, in one pass from left to right: text that a value brings in is not scanned again,
/// and a token of an unknown name is kept as written.
pub open spec fn expand_all(s: Seq<char>, vars: Seq<(Seq<char>, Seq<char>)>) -> Seq<char>
    decreases s.len(),
{
    if s.len() == 0 {
        s
    } else if s.len() >= 2 && s[0] == '$' && s[1] == '{' {
        let c: int = 2 + close_len(s.subrange(2, s.len() as int)) as int;
        if c < s.len() {
            let rest = expand_all(s.subrange(c + 1, s.len() as int), vars);
            match lookup_var(vars, s.subrange(2, c as int)) {
                Some(v) => v + rest,
                None => s.subrange(0, c + 1) + rest,
            }
        } else {
            s
        }
    } else {
        seq![s[0]] + expand_all(s.subrange(1, s.len() as int), vars)
    }
}

/// The plain view of a variables map.
pub open spec fn vars_view(vars: Seq<(String, String)>) -> Seq<(Seq<char>, Seq<char>)> {
    vars.map_values(|e: (String, String)| (e.0@, e.1@))
}

/// Replaces every `${key}` in `src` by `value`.
pub fn expand_var(src: &str, key: &str, value: &str) -> (r: String)
    ensures
        r@ == replace_all(src@, var_token(key@), value@),
{
    let s = chars_of(src);
    let open: Vec<char> = vec!['$', '{'];
    let close: Vec<char> = vec!['}'];
    let token = concat(&concat(&open, &chars_of(key)), &close);
    let rep = chars_of(value);
    assert(token@ =~= var_token(key@));
    let out = replace_chars(&s, &token, &rep);
    string_from(&out)
}

proof fn lemma_replace_step(s: Seq<char>, p: Seq<char>, r: Seq<char>, i: int)
    requires
        p.len() > 0,
        0 <= i,
        i + p.len() <= s.len(),
    ensures
        s.subrange(i, i + p.len()) == p ==> replace_all(s.subrange(i, s.len() as int), p, r)
            == r + replace_all(s.subrange(i + p.len(), s.len() as int), p, r),
        s.subrange(i, i + p.len()) != p ==> replace_all(s.subrange(i, s.len() as int), p, r)
            == seq![s[i]] + replace_all(s.subrange(i + 1, s.len() as int), p, r),
{
    let t = s.subrange(i, s.len() as int);
    assert(t.subrange(0, p.len() as int) =~= s.subrange(i, i + p.len()));
    assert(t.subrange(p.len() as int, t.len() as int) =~= s.subrange(i + p.len(), s.len() as int));
    assert(t.subrange(1, t.len() as int) =~= s.subrange(i + 1, s.len() as int));
}

/// `s` with every occurrence of `p` replaced by `r`.
fn replace_chars(s: &Vec<char>, p: &Vec<char>, r: &Vec<char>) -> (out: Vec<char>)
    ensures
        out@ == replace_all(s@, p@, r@),
{
    if p.len() == 0 {
        return s.clone();
    }
    let mut out: Vec<char> = Vec::new();
    let mut i: usize = 0;
    assert(s@.subrange(0, s@.len() as int) =~= s@);
    assert(out@ + replace_all(s@, p@, r@) =~= replace_all(s@, p@, r@));
    while i < s.len() && s.len() - i >= p.len()
        invariant
            p@.len() > 0,
            i <= s@.len(),
            out@ + replace_all(s@.subrange(i as int, s@.len() as int), p@, r@) == replace_all(s@, p@, r@),
        decreases s@.len() - i,
    {
        proof { lemma_replace_step(s@, p@, r@, i as int); }
        if matches_at(s, p, i) {
            let ghost before = out@;
            out = concat(&out, r);
            assert(before + (r@ + replace_all(s@.subrange(i + p@.len(), s@.len() as int), p@, r@))
                =~= out@ + replace_all(s@.subrange(i + p@.len(), s@.len() as int), p@, r@));
            i += p.len();
        } else {
            let ghost before = out@;
            out.push(s[i]);
            assert(before + (seq![s@[i as int]] + replace_all(s@.subrange(i + 1, s@.len() as int), p@, r@))
                =~= out@ + replace_all(s@.subrange(i + 1, s@.len() as int), p@, r@));
            i += 1;
        }
    }
    let rest = slice(s, i, s.len());
    assert(s@.subrange(i as int, s@.len() as int).len() < p@.len() || i == s@.len());
    let out = concat(&out, &rest);
    out
}

/// The index of the first `}` of `s` from `from` on, or the length of `s`.
fn find_close(s: &Vec<char>, from: usize) -> (r: usize)
    requires
        from <= s@.len(),
    ensures
        r == from + close_len(s@.subrange(from as int, s@.len() as int)),
        r <= s@.len(),
{
    let mut j: usize = from;
    while j < s.len() && s[j] != '}'
        invariant
            from <= j <= s@.len(),
            close_len(s@.subrange(from as int, s@.len() as int)) == (j - from) + close_len(s@.subrange(j as int, s@.len() as int)),
        decreases s@.len() - j,
    {
        assert(s@.subrange(j as int, s@.len() as int).drop_first() =~= s@.subrange(j + 1, s@.len() as int));
        j += 1;
    }
    j
}

/// The value of the first variable of `vars` named `name`.
fn lookup(vars: &VarsMap, name: &Vec<char>) -> (r: Option<usize>)
    ensures
        match lookup_var(vars_view(vars@), name@) {
            Some(v) => r matches Some(k) && k < vars@.len() && vars@[k as int].1@ == v,
            None => r is None,
        },
{
    let ghost vv = vars_view(vars@);
    let mut i: usize = 0;
    assert(vv.subrange(0, vv.len() as int) =~= vv);
    while i < vars.len()
        invariant
            i <= vars@.len(),
            vv == vars_view(vars@),
            lookup_var(vv, name@) == lookup_var(vv.subrange(i as int, vv.len() as int), name@),
        decreases vars@.len() - i,
    {
        let ghost t = vv.subrange(i as int, vv.len() as int);
        assert(t[0] == (vars@[i as int].0@, vars@[i as int].1@));
        if same_chars(&chars_of(vars[i].0.as_str()), name) {
            return Some(i);
        }
        assert(t.drop_first() =~= vv.subrange(i + 1, vv.len() as int));
        i += 1;
    }
    None
}

proof fn lemma_expand_token(s: Seq<char>, vars: Seq<(Seq<char>, Seq<char>)>, i: int, c: int)
    requires
        0 <= i,
        i + 2 <= s.len(),
        s[i] == '$',
        s[i + 1] == '{',
        c == i + 2 + close_len(s.subrange(i + 2, s.len() as int)),
    ensures
        ({
            let t = s.subrange(i, s.len() as int);
            &&& c < s.len() ==> expand_all(t, vars) == match lookup_var(vars, s.subrange(i + 2, c)) {
                Some(v) => v + expand_all(s.subrange(c + 1, s.len() as int), vars),
                None => s.subrange(i, c + 1) + expand_all(s.subrange(c + 1, s.len() as int), vars),
            }
            &&& c >= s.len() ==> expand_all(t, vars) == t
        }),
{
    let t = s.subrange(i, s.len() as int);
    assert(t.subrange(2, t.len() as int) =~= s.subrange(i + 2, s.len() as int));
    let ct = c - i;
    if c < s.len() {
        assert(t.subrange(ct + 1, t.len() as int) =~= s.subrange(c + 1, s.len() as int));
        assert(t.subrange(2, ct) =~= s.subrange(i + 2, c));
        assert(t.subrange(0, ct + 1) =~= s.subrange(i, c + 1));
    }
}

/// `src` with its `${name}` tokens expanded in one pass; fails with `UnknownVariable` when
/// a `${` is left afterwards.
pub fn expand_vars(src: &str, vars: &VarsMap) -> (r: Result<String, ErrorKind>)
    ensures
        match r {
            Ok(s) => s@ == expand_all(src@, vars_view(vars@)) && !contains(s@, seq!['$', '{']),
            Err(e) => e == ErrorKind::UnknownVariable && contains(expand_all(src@, vars_view(vars@)), seq!['$', '{']),
        },
{
    let ghost vv = vars_view(vars@);
    let s = chars_of(src);
    let mut out: Vec<char> = Vec::new();
    let mut i: usize = 0;
    assert(s@.subrange(0, s@.len() as int) =~= s@);
    assert(out@ + expand_all(s@, vv) =~= expand_all(s@, vv));
    while i < s.len()
        invariant
            i <= s@.len(),
            s@ == src@,
            vv == vars_view(vars@),
            out@ + expand_all(s@.subrange(i as int, s@.len() as int), vv) == expand_all(s@, vv),
        decreases s@.len() - i,
    {
        let ghost t = s@.subrange(i as int, s@.len() as int);
        let ghost before = out@;
        if i + 1 < s.len() && s[i] == '$' && s[i + 1] == '{' {
            let c = find_close(&s, i + 2);
            proof { lemma_expand_token(s@, vv, i as int, c as int); }
            if c < s.len() {
                let name = slice(&s, i + 2, c);
                match lookup(vars, &name) {
                    Some(k) => {
                        out = concat(&out, &chars_of(vars[k].1.as_str()));
                    },
                    None => {
                        out = concat(&out, &slice(&s, i, c + 1));
                    },
                }
                assert(out@ + expand_all(s@.subrange(c + 1, s@.len() as int), vv) =~= expand_all(s@, vv));
                i = c + 1;
            } else {
                out = concat(&out, &slice(&s, i, s.len()));
                assert(s@.subrange(s@.len() as int, s@.len() as int) =~= Seq::<char>::empty());
                assert(out@ + expand_all(s@.subrange(s@.len() as int, s@.len() as int), vv) =~= expand_all(s@, vv));
                i = s.len();
            }
        } else {
            proof {
                assert(t.subrange(1, t.len() as int) =~= s@.subrange(i + 1, s@.len() as int));
                assert(t[0] == s@[i as int]);
            }
            out.push(s[i]);
            assert(out@ + expand_all(s@.subrange(i + 1, s@.len() as int), vv) =~= expand_all(s@, vv));
            i += 1;
        }
    }
    assert(s@.subrange(s@.len() as int, s@.len() as int) =~= Seq::<char>::empty());
    assert(out@ =~= expand_all(src@, vv));
    let open: Vec<char> = vec!['$', '{'];
    if find_in(&out, &open) {
        Err(ErrorKind::UnknownVariable)
    } else {
        Ok(string_from(&out))
    }
}

/// The variables that the install engine offers: `exe_ext`, `doc_dir`, `bash_comp_dir`,
/// `zsh_comp_dir`, and `asset_name` when the asset was a single file.
pub fn create_vars_map(asset_name: &Option<String>, package_name: &str, host_os: Os) -> (r: VarsMap)
    ensures
        r@.len() == if asset_name is Some { 5int } else { 4int },
        r@[0].0@ == "exe_ext"@,
        r@[0].1@ == (if host_os == Os::Windows { ".exe"@ } else { ""@ }),
        r@[1].0@ == "doc_dir"@,
        r@[1].1@ == "share/doc/"@ + package_name@ + "/"@,
        r@[2].0@ == "bash_comp_dir"@,
        r@[2].1@ == "share/bash-completions/completions/"@,
        r@[3].0@ == "zsh_comp_dir"@,
        r@[3].1@ == "share/zsh-completions/"@,
        asset_name matches Some(a) ==> r@[4].0@ == "asset_name"@ && r@[4].1@ == a@,
{
    let mut map: VarsMap = Vec::new();
    let exe_ext = if host_os == Os::Windows { ".exe" } else { "" };
    map.push(("exe_ext".to_owned(), exe_ext.to_owned()));
    let doc_dir = concat(&concat(&chars_of("share/doc/"), &chars_of(package_name)), &chars_of("/"));
    map.push(("doc_dir".to_owned(), string_from(&doc_dir)));
    map.push(("bash_comp_dir".to_owned(), "share/bash-completions/completions/".to_owned()));
    map.push(("zsh_comp_dir".to_owned(), "share/zsh-completions/".to_owned()));
    match asset_name {
        Some(a) => {
            map.push(("asset_name".to_owned(), a.clone()));
        },
        None => {},
    }
    map
}

} // verus!
