//! Legacy Second Life login names (`First.Last` or `First Last`, with the
//! `Resident` surname by default) and the `$1$`-prefixed MD5 password form.
use vstd::prelude::*;
use vstd::string::StringSliceAdditionalSpecFns;
use crate::numtext::{hex_lower, push_hex_lower};
use crate::text::{
    chars_of, find, find_exec, join, join_chars_from, push_str, slice_chars, split_words,
    starts_with, starts_with_str, string_of, trim, trimmed, words,
};

verus! {

/// A first and last name as the legacy login form takes them.
#[derive(Debug, Clone, PartialEq, Eq)]
pub struct LegacyLoginName {
    pub first: String,
    pub last: String,
}

impl LegacyLoginName {
    pub fn new(first: String, last: String) -> (r: Self)
        ensures
            r.first@ == first@,
            r.last@ == last@,
    {
        LegacyLoginName { first, last }
    }
}

/// `First.Last`: the text around the first `.`, when both sides are non-empty.
pub open spec fn dot_split(t: Seq<char>) -> Option<(Seq<char>, Seq<char>)> {
    match find(t, seq!['.']) {
        Some(i) => if i > 0 && i + 1 < t.len() {
            Some((t.take(i), t.skip(i + 1)))
        } else {
            None
        },
        None => None,
    }
}

/// The legacy name in `username`: `None` when blank; the two sides of
/// `First.Last`; else the first word and the remaining words joined by one
/// space, when there are at least two words; else `None`.
pub open spec fn legacy_split(username: Seq<char>) -> Option<(Seq<char>, Seq<char>)> {
    let t = trim(username);
    if t.len() == 0 {
        None
    } else {
        match dot_split(t) {
            Some(p) => Some(p),
            None => if words(t).len() >= 2 {
                Some((words(t)[0], join(words(t).skip(1), seq![' '])))
            } else {
                None
            },
        }
    }
}

/// The legacy name for a raw login field: empty names when blank, the split
/// name when there is one, else the whole trimmed text with `Resident`.
pub open spec fn legacy_classify(raw: Seq<char>) -> (Seq<char>, Seq<char>) {
    let t = trim(raw);
    if t.len() == 0 {
        (seq![], seq![])
    } else {
        match legacy_split(raw) {
            Some(p) => p,
            None => (t, "Resident"@),
        }
    }
}

/// The split of an already trimmed, non-empty `t`, as character vectors.
fn split_trimmed(t: &[char]) -> (r: Option<(Vec<char>, Vec<char>)>)
    requires
        t@.len() > 0,
        trim(t@) == t@,
    ensures
        match r {
            Some(p) => legacy_split(t@) == Some((p.0@, p.1@)),
            None => legacy_split(t@) is None,
        },
{
    let mut dot: Vec<char> = Vec::new();
    dot.push('.');
    assert(dot@ =~= seq!['.']);
    match find_exec(t, dot.as_slice()) {
        Some(i) => {
            if i > 0 && i < t.len() && t.len() - i > 1 {
                let first = slice_chars(t, 0, i);
                let last = slice_chars(t, i + 1, t.len());
                assert(first@ =~= t@.take(i as int));
                assert(last@ =~= t@.skip(i + 1));
                return Some((first, last));
            }
        },
        None => {},
    }
    let ws = split_words(t);
    if ws.len() >= 2 {
        let mut sp: Vec<char> = Vec::new();
        sp.push(' ');
        assert(sp@ =~= seq![' ']);
        let rest = join_chars_from(ws.as_slice(), 1, sp.as_slice());
        let first = slice_chars(ws[0].as_slice(), 0, ws[0].len());
        assert(first@ =~= ws@[0]@);
        Some((first, rest))
    } else {
        None
    }
}

proof fn lemma_trim_idempotent(s: Seq<char>)
    ensures
        trim(trim(s)) == trim(s),
{
    lemma_trim_start_fixed(s);
    lemma_trim_end_fixed(crate::text::trim_start(s));
    lemma_trim_end_keeps_start(crate::text::trim_start(s));
}

proof fn lemma_trim_start_fixed(s: Seq<char>)
    ensures
        crate::text::trim_start(crate::text::trim_start(s)) == crate::text::trim_start(s),
        crate::text::trim_start(s).len() > 0 ==> !crate::text::is_ws(
            crate::text::trim_start(s)[0],
        ),
    decreases s.len(),
{
    if s.len() > 0 && crate::text::is_ws(s[0]) {
        lemma_trim_start_fixed(s.drop_first());
    }
}

proof fn lemma_trim_end_fixed(s: Seq<char>)
    ensures
        crate::text::trim_end(crate::text::trim_end(s)) == crate::text::trim_end(s),
        crate::text::trim_end(s).len() > 0 ==> !crate::text::is_ws(
            crate::text::trim_end(s).last(),
        ),
    decreases s.len(),
{
    if s.len() > 0 && crate::text::is_ws(s.last()) {
        lemma_trim_end_fixed(s.drop_last());
    }
}

/// Trimming the end of a text that starts with a non-space keeps that start.
proof fn lemma_trim_end_keeps_start(s: Seq<char>)
    requires
        s.len() > 0 ==> !crate::text::is_ws(s[0]),
    ensures
        crate::text::trim_end(s).len() > 0 ==> !crate::text::is_ws(crate::text::trim_end(s)[0]),
        crate::text::trim_end(s).len() > 0 ==> crate::text::trim_start(crate::text::trim_end(s))
            == crate::text::trim_end(s),
        crate::text::trim_end(s).len() == 0 ==> crate::text::trim_start(crate::text::trim_end(s))
            == crate::text::trim_end(s),
    decreases s.len(),
{
    if s.len() > 0 && crate::text::is_ws(s.last()) {
        let d = s.drop_last();
        if d.len() > 0 {
            assert(d[0] == s[0]);
        }
        lemma_trim_end_keeps_start(d);
    }
}

/// Splits a login name into first and last name, if it names both.
pub fn split_legacy_name(username: &str) -> (r: Option<(String, String)>)
    ensures
        match r {
            Some(p) => legacy_split(username@) == Some((p.0@, p.1@)),
            None => legacy_split(username@) is None,
        },
{
    let c = chars_of(username);
    let t = trimmed(c.as_slice());
    if t.len() == 0 {
        return None;
    }
    proof {
        lemma_trim_idempotent(username@);
    }
    match split_trimmed(t.as_slice()) {
        Some((first, last)) => Some((string_of(first.as_slice()), string_of(last.as_slice()))),
        None => None,
    }
}

/// Classifies a raw login field as a legacy first and last name.
pub fn classify_legacy_login_name(raw: &str) -> (r: LegacyLoginName)
    ensures
        (r.first@, r.last@) == legacy_classify(raw@),
{
    let c = chars_of(raw);
    let t = trimmed(c.as_slice());
    if t.len() == 0 {
        return LegacyLoginName::new(String::new(), String::new());
    }
    proof {
        lemma_trim_idempotent(raw@);
    }
    match split_trimmed(t.as_slice()) {
        Some((first, last)) => LegacyLoginName::new(
            string_of(first.as_slice()),
            string_of(last.as_slice()),
        ),
        None => LegacyLoginName::new(string_of(t.as_slice()), "Resident".to_owned()),
    }
}

/// The MD5 digest of a byte string, as `md5::compute` returns it.
pub uninterp spec fn md5_digest(data: Seq<u8>) -> Seq<u8>;

/// `md5::compute` on `data`: its sixteen bytes are the MD5 digest of `data`.
#[verifier::external_body]
fn md5_compute(data: &[u8]) -> (r: [u8; 16])
    ensures
        r@ == md5_digest(data@),
{
    md5::compute(data).0
}

/// The password as the legacy login takes it: unchanged when it already starts
/// with `$1$`, else `$1$` followed by its MD5 digest in lower-case hexadecimal.
pub fn normalize_legacy_passwd(passwd: &str) -> (r: String)
    ensures
        r@ == (if starts_with(passwd@, "$1$"@) {
            passwd@
        } else {
            "$1$"@ + hex_lower(md5_digest(passwd.spec_bytes()))
        }),
{
    let c = chars_of(passwd);
    if starts_with_str(c.as_slice(), "$1$") {
        return passwd.to_owned();
    }
    let digest = md5_compute(passwd.as_bytes());
    let mut out: Vec<char> = Vec::new();
    push_str(&mut out, "$1$");
    push_hex_lower(&mut out, &digest);
    string_of(out.as_slice())
}

} // verus!
