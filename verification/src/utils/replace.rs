//! Substitution of `¥{identifier}` tokens in text.

use vstd::prelude::*;
use vstd::string::StringExecFns;
use crate::utils::strmap::StringMap;
use crate::utils::text::{chars_of, push_char, string_of, views};

verus! {

/// The character that starts a token.
pub const SPECIAL_CHAR: char = '¥';

/// What to do with a token whose identifier the map does not hold.
#[derive(Clone, Copy, Debug, PartialEq, Eq, Structural)]
pub enum ReplaceFailPolicy {
    /// Keep the token as it is.
    Ignore,
    /// Keep the token as it is and report its identifier.
    Warn,
    /// Give up.
    Panic,
}

/// The place of the first `}` at or behind `from`; the length of `s` where
/// there is none.
pub open spec fn find_close(s: Seq<char>, from: int) -> int
    decreases s.len() - from,
{
    if from >= s.len() {
        s.len() as int
    } else if s[from] == '}' {
        from
    } else {
        find_close(s, from + 1)
    }
}

/// The text `s` from place `i` on, with each token whose identifier the map
/// holds replaced by the identifier's value. A `¥` that no `{` follows stays,
/// together with the character behind it; a token that is not closed stays; a
/// token whose identifier is unknown stays. What was put in is not read again.
pub open spec fn expand_from(s: Seq<char>, i: int, m: Map<Seq<char>, Seq<char>>) -> Seq<char>
    decreases s.len() - i,
{
    if i < 0 || i >= s.len() {
        Seq::empty()
    } else if s[i] != SPECIAL_CHAR {
        seq![s[i]] + expand_from(s, i + 1, m)
    } else if i + 1 >= s.len() {
        seq![SPECIAL_CHAR]
    } else if s[i + 1] != '{' {
        seq![s[i], s[i + 1]] + expand_from(s, i + 2, m)
    } else {
        let j = find_close(s, i + 2);
        if j < i + 2 || j >= s.len() {
            s.subrange(i, s.len() as int)
        } else {
            let ident = s.subrange(i + 2, j);
            (if m.contains_key(ident) {
                m[ident]
            } else {
                s.subrange(i, j + 1)
            }) + expand_from(s, j + 1, m)
        }
    }
}

/// The whole text with its known tokens replaced.
pub open spec fn expand(s: Seq<char>, m: Map<Seq<char>, Seq<char>>) -> Seq<char> {
    expand_from(s, 0, m)
}

/// `acc` followed by the identifiers of the closed tokens of `s` from place
/// `i` on that the map does not hold, each once, in the order in which they
/// first occur.
pub open spec fn unknown_from(
    s: Seq<char>,
    i: int,
    m: Map<Seq<char>, Seq<char>>,
    acc: Seq<Seq<char>>,
) -> Seq<Seq<char>>
    decreases s.len() - i,
{
    if i < 0 || i >= s.len() {
        acc
    } else if s[i] != SPECIAL_CHAR {
        unknown_from(s, i + 1, m, acc)
    } else if i + 1 >= s.len() {
        acc
    } else if s[i + 1] != '{' {
        unknown_from(s, i + 2, m, acc)
    } else {
        let j = find_close(s, i + 2);
        if j < i + 2 || j >= s.len() {
            acc
        } else {
            let ident = s.subrange(i + 2, j);
            unknown_from(
                s,
                j + 1,
                m,
                if m.contains_key(ident) || acc.contains(ident) {
                    acc
                } else {
                    acc.push(ident)
                },
            )
        }
    }
}

/// The identifiers of the tokens of `s` that the map does not hold.
pub open spec fn unknown_tokens(s: Seq<char>, m: Map<Seq<char>, Seq<char>>) -> Seq<Seq<char>> {
    unknown_from(s, 0, m, Seq::empty())
}

/// The first `}` behind `from` is at `j` where none stands between them.
pub proof fn lemma_find_close(s: Seq<char>, from: int, j: int)
    requires
        0 <= from <= j <= s.len(),
        forall|k: int| from <= k < j ==> s[k] != '}',
        j < s.len() ==> s[j] == '}',
    ensures
        find_close(s, from) == j,
    decreases j - from,
{
    if from < j {
        lemma_find_close(s, from + 1, j);
    }
}

/// Whether `v` holds a string with the text of `s`.
pub fn holds_string(v: &Vec<String>, s: &String) -> (r: bool)
    ensures
        r == views(v@).contains(s@),
{
    let mut i: usize = 0;
    while i < v.len()
        invariant
            i <= v@.len(),
            forall|j: int| 0 <= j < i ==> views(v@)[j] != s@,
        decreases v@.len() - i,
    {
        if v[i] == *s {
            proof {
                assert(views(v@)[i as int] == s@);
            }
            return true;
        }
        i = i + 1;
    }
    false
}

/// A text after substitution, with the identifiers that were reported.
#[derive(Debug)]
pub struct Replaced {
    /// The text with its known tokens replaced.
    pub text: String,
    /// The identifiers that the map does not hold, each once, in the order
    /// in which they first occur; empty unless the policy asks for a report.
    pub missing: Vec<String>,
}

/// Why a substitution gave up.
#[derive(Debug)]
pub enum ReplaceError {
    /// The text holds a token with this identifier, the map does not, and
    /// the policy forbids to pass over it.
    MissingToken(String),
}

/// What `replace` answers for a text, a map and a policy.
pub open spec fn replace_outcome(
    s: Seq<char>,
    m: Map<Seq<char>, Seq<char>>,
    policy: ReplaceFailPolicy,
    r: Result<Replaced, ReplaceError>,
) -> bool {
    let unknown = unknown_tokens(s, m);
    if policy == ReplaceFailPolicy::Panic && unknown.len() > 0 {
        match r {
            Err(ReplaceError::MissingToken(t)) => t@ == unknown[0],
            Ok(_) => false,
        }
    } else {
        &&& r is Ok
        &&& r->Ok_0.text@ == expand(s, m)
        &&& views(r->Ok_0.missing@) == if policy == ReplaceFailPolicy::Warn {
            unknown
        } else {
            Seq::empty()
        }
    }
}

/// Replaces each token `¥{identifier}` of `text` by the value that the map
/// gives to the identifier. Under `Ignore` and `Warn` a token with an unknown
/// identifier stays as it is, and `Warn` reports the identifier; under
/// `Panic` the first such token ends the substitution with an error.
pub fn replace(text: &str, replacement: &StringMap, fail_policy: ReplaceFailPolicy) -> (r: Result<
    Replaced,
    ReplaceError,
>)
    requires
        replacement.wf(),
    ensures
        replace_outcome(text@, replacement@, fail_policy, r),
{
    let chars = chars_of(text);
    let n = chars.len();
    let ghost s = text@;
    let ghost m = replacement@;
    let mut out = String::new();
    let mut missing: Vec<String> = Vec::new();
    let mut seen: Vec<String> = Vec::new();
    let mut ident: Vec<char> = Vec::new();
    let mut state: u8 = 0;
    let ghost mut tok: int = 0;
    let mut i: usize = 0;
    proof {
        assert(views(seen@) =~= Seq::<Seq<char>>::empty());
        assert(views(missing@) =~= Seq::<Seq<char>>::empty());
        assert(out@ + expand_from(s, 0, m) =~= expand(s, m));
    }
    while i < n
        invariant
            i <= n,
            n == s.len(),
            chars@ == s,
            s == text@,
            m == replacement@,
            replacement.wf(),
            state == 0 || state == 1 || state == 2,
            0 <= tok <= i,
            state == 0 ==> tok == i,
            state == 1 ==> tok == i - 1 && s[tok] == SPECIAL_CHAR,
            state == 2 ==> {
                &&& tok + 2 <= i
                &&& s[tok] == SPECIAL_CHAR
                &&& s[tok + 1] == '{'
                &&& forall|k: int| tok + 2 <= k < i ==> s[k] != '}'
                &&& ident@ == s.subrange(tok + 2, i as int)
            },
            expand(s, m) == out@ + expand_from(s, tok, m),
            unknown_tokens(s, m) == unknown_from(s, tok, m, views(seen@)),
            fail_policy == ReplaceFailPolicy::Panic ==> seen@.len() == 0,
            views(missing@) == if fail_policy == ReplaceFailPolicy::Warn {
                views(seen@)
            } else {
                Seq::empty()
            },
        decreases n - i,
    {
        let chr = chars[i];
        if state == 0 {
            if chr == SPECIAL_CHAR {
                state = 1;
            } else {
                let ghost before = out@;
                push_char(&mut out, chr);
                proof {
                    tok = i + 1;
                    assert(before + (seq![chr] + expand_from(s, i + 1, m)) =~= out@ + expand_from(
                        s,
                        i + 1,
                        m,
                    ));
                }
            }
        } else if state == 1 {
            if chr == '{' {
                state = 2;
                ident = Vec::new();
                proof {
                    assert(ident@ =~= s.subrange(tok + 2, i + 1));
                }
            } else {
                let ghost before = out@;
                push_char(&mut out, SPECIAL_CHAR);
                push_char(&mut out, chr);
                state = 0;
                proof {
                    assert(before + (seq![s[tok], s[tok + 1]] + expand_from(s, tok + 2, m))
                        =~= out@ + expand_from(s, tok + 2, m));
                    tok = i + 1;
                }
            }
        } else {
            if chr == '}' {
                let key = string_of(&ident);
                let ghost before = out@;
                let ghost seen_before = views(seen@);
                proof {
                    lemma_find_close(s, tok + 2, i as int);
                }
                match replacement.get(&key) {
                    Some(v) => {
                        out.append(v.as_str());
                        proof {
                            assert(before + (m[key@] + expand_from(s, i + 1, m)) =~= out@
                                + expand_from(s, i + 1, m));
                        }
                    },
                    None => {
                        let known = holds_string(&seen, &key);
                        if !known {
                            match fail_policy {
                                ReplaceFailPolicy::Panic => {
                                    proof {
                                        lemma_unknown_first(
                                            s,
                                            i + 1,
                                            m,
                                            seen_before.push(key@),
                                        );
                                        assert(seen_before.len() == 0);
                                        assert(key@ == s.subrange(tok + 2, i as int));
                                        assert(unknown_from(s, tok, m, seen_before)
                                            == unknown_from(
                                            s,
                                            i + 1,
                                            m,
                                            seen_before.push(key@),
                                        ));
                                        assert(seen_before.push(key@)[0] == key@);
                                    }
                                    return Err(ReplaceError::MissingToken(key));
                                },
                                ReplaceFailPolicy::Warn => {
                                    let ghost missing_before = views(missing@);
                                    missing.push(key.clone());
                                    proof {
                                        assert(views(missing@) =~= missing_before.push(key@));
                                    }
                                },
                                ReplaceFailPolicy::Ignore => {},
                            }
                            seen.push(key);
                            proof {
                                assert(views(seen@) =~= seen_before.push(ident@));
                            }
                        }
                        push_char(&mut out, SPECIAL_CHAR);
                        push_char(&mut out, '{');
                        let mut k: usize = 0;
                        while k < ident.len()
                            invariant
                                k <= ident@.len(),
                                out@ == before + seq![SPECIAL_CHAR, '{'] + ident@.subrange(
                                    0,
                                    k as int,
                                ),
                            decreases ident@.len() - k,
                        {
                            push_char(&mut out, ident[k]);
                            proof {
                                assert(ident@.subrange(0, k + 1) =~= ident@.subrange(
                                    0,
                                    k as int,
                                ).push(ident@[k as int]));
                            }
                            k = k + 1;
                        }
                        push_char(&mut out, '}');
                        proof {
                            assert(ident@.subrange(0, k as int) =~= ident@);
                            assert(out@ =~= before + s.subrange(tok, i + 1));
                            assert(before + (s.subrange(tok, i + 1) + expand_from(s, i + 1, m))
                                =~= out@ + expand_from(s, i + 1, m));
                        }
                    },
                }
                state = 0;
                proof {
                    tok = i + 1;
                }
            } else {
                ident.push(chr);
                proof {
                    assert(ident@ =~= s.subrange(tok + 2, i + 1));
                }
            }
        }
        i = i + 1;
    }
    let ghost at_end = out@;
    if state == 1 {
        push_char(&mut out, SPECIAL_CHAR);
        proof {
            assert(expand_from(s, tok, m) == seq![SPECIAL_CHAR]);
            assert(out@ =~= at_end + seq![SPECIAL_CHAR]);
            assert(unknown_from(s, tok, m, views(seen@)) == views(seen@));
        }
    } else if state == 2 {
        let ghost before = out@;
        proof {
            lemma_find_close(s, tok + 2, n as int);
        }
        push_char(&mut out, SPECIAL_CHAR);
        push_char(&mut out, '{');
        let mut k: usize = 0;
        while k < ident.len()
            invariant
                k <= ident@.len(),
                out@ == before + seq![SPECIAL_CHAR, '{'] + ident@.subrange(0, k as int),
            decreases ident@.len() - k,
        {
            push_char(&mut out, ident[k]);
            proof {
                assert(ident@.subrange(0, k + 1) =~= ident@.subrange(0, k as int).push(
                    ident@[k as int],
                ));
            }
            k = k + 1;
        }
        proof {
            assert(ident@.subrange(0, k as int) =~= ident@);
            assert(out@ =~= before + s.subrange(tok, n as int));
            assert(expand_from(s, tok, m) == s.subrange(tok, n as int));
            assert(unknown_from(s, tok, m, views(seen@)) == views(seen@));
        }
    } else {
        proof {
            assert(out@ + Seq::<char>::empty() =~= out@);
            assert(unknown_from(s, tok, m, views(seen@)) == views(seen@));
        }
    }
    assert(out@ == expand(s, m));
    assert(unknown_tokens(s, m) == views(seen@));
    proof {
        if fail_policy == ReplaceFailPolicy::Panic {
            assert(views(seen@) =~= Seq::<Seq<char>>::empty());
        }
    }
    Ok(Replaced { text: out, missing })
}

/// Identifiers are only added behind those that were collected before.
pub proof fn lemma_unknown_first(
    s: Seq<char>,
    i: int,
    m: Map<Seq<char>, Seq<char>>,
    acc: Seq<Seq<char>>,
)
    ensures
        unknown_from(s, i, m, acc).len() >= acc.len(),
        forall|k: int| 0 <= k < acc.len() ==> unknown_from(s, i, m, acc)[k] == #[trigger] acc[k],
    decreases s.len() - i,
{
    if i < 0 || i >= s.len() {
    } else if s[i] != SPECIAL_CHAR {
        lemma_unknown_first(s, i + 1, m, acc);
    } else if i + 1 >= s.len() {
    } else if s[i + 1] != '{' {
        lemma_unknown_first(s, i + 2, m, acc);
    } else {
        let j = find_close(s, i + 2);
        lemma_find_close_bounds(s, i + 2);
        if i + 2 <= j < s.len() {
            let ident = s.subrange(i + 2, j);
            let acc1 = if m.contains_key(ident) || acc.contains(ident) {
                acc
            } else {
                acc.push(ident)
            };
            lemma_unknown_first(s, j + 1, m, acc1);
            assert forall|k: int| 0 <= k < acc.len() implies unknown_from(s, i, m, acc)[k]
                == #[trigger] acc[k] by {
                assert(acc1[k] == acc[k]);
            }
        }
    }
}

/// The first `}` at or behind `from` is not before `from`, and nothing
/// between them is a `}`.
pub proof fn lemma_find_close_bounds(s: Seq<char>, from: int)
    requires
        0 <= from,
    ensures
        from <= find_close(s, from) || find_close(s, from) == s.len(),
        find_close(s, from) <= s.len(),
        find_close(s, from) < s.len() ==> s[find_close(s, from)] == '}',
        forall|k: int| from <= k < find_close(s, from) ==> s[k] != '}',
    decreases s.len() - from,
{
    if from < s.len() && s[from] != '}' {
        lemma_find_close_bounds(s, from + 1);
    }
}

/// Whether a closed token of `s` at or behind place `i` has an identifier
/// that the map holds.
pub open spec fn has_known_token(s: Seq<char>, i: int, m: Map<Seq<char>, Seq<char>>) -> bool
    decreases s.len() - i,
{
    if i < 0 || i >= s.len() {
        false
    } else if s[i] != SPECIAL_CHAR {
        has_known_token(s, i + 1, m)
    } else if i + 1 >= s.len() {
        false
    } else if s[i + 1] != '{' {
        has_known_token(s, i + 2, m)
    } else {
        let j = find_close(s, i + 2);
        if j < i + 2 || j >= s.len() {
            false
        } else {
            m.contains_key(s.subrange(i + 2, j)) || has_known_token(s, j + 1, m)
        }
    }
}

/// Substitution changes nothing in a text of which no token has an identifier
/// that the map holds.
pub proof fn lemma_unknown_tokens_stay(s: Seq<char>, i: int, m: Map<Seq<char>, Seq<char>>)
    requires
        0 <= i <= s.len(),
        !has_known_token(s, i, m),
    ensures
        expand_from(s, i, m) == s.subrange(i, s.len() as int),
    decreases s.len() - i,
{
    let n = s.len() as int;
    if i >= n {
        assert(s.subrange(i, n) =~= Seq::<char>::empty());
    } else if s[i] != SPECIAL_CHAR {
        lemma_unknown_tokens_stay(s, i + 1, m);
        assert(seq![s[i]] + s.subrange(i + 1, n) =~= s.subrange(i, n));
    } else if i + 1 >= n {
        assert(seq![SPECIAL_CHAR] =~= s.subrange(i, n));
    } else if s[i + 1] != '{' {
        lemma_unknown_tokens_stay(s, i + 2, m);
        assert(seq![s[i], s[i + 1]] + s.subrange(i + 2, n) =~= s.subrange(i, n));
    } else {
        let j = find_close(s, i + 2);
        lemma_find_close_bounds(s, i + 2);
        if i + 2 <= j < n {
            lemma_unknown_tokens_stay(s, j + 1, m);
            assert(s.subrange(i, j + 1) + s.subrange(j + 1, n) =~= s.subrange(i, n));
        }
    }
}

/// A text without the token character holds no token.
pub proof fn lemma_plain_has_no_token(s: Seq<char>, i: int, m: Map<Seq<char>, Seq<char>>)
    requires
        0 <= i <= s.len(),
        forall|k: int| i <= k < s.len() ==> s[k] != SPECIAL_CHAR,
    ensures
        !has_known_token(s, i, m),
    decreases s.len() - i,
{
    if i < s.len() {
        lemma_plain_has_no_token(s, i + 1, m);
    }
}

/// Substitution is the identity on a text without the token character.
pub proof fn lemma_replace_plain_text(s: Seq<char>, m: Map<Seq<char>, Seq<char>>)
    requires
        !s.contains(SPECIAL_CHAR),
    ensures
        expand(s, m) == s,
{
    assert forall|k: int| 0 <= k < s.len() implies s[k] != SPECIAL_CHAR by {
        assert(s.contains(s[k]));
    }
    lemma_plain_has_no_token(s, 0, m);
    lemma_unknown_tokens_stay(s, 0, m);
    assert(s.subrange(0, s.len() as int) =~= s);
}

/// Substitution is the identity on a text of which no token has an
/// identifier that the map holds.
pub proof fn lemma_replace_unknown_only(s: Seq<char>, m: Map<Seq<char>, Seq<char>>)
    requires
        !has_known_token(s, 0, m),
    ensures
        expand(s, m) == s,
{
    lemma_unknown_tokens_stay(s, 0, m);
    assert(s.subrange(0, s.len() as int) =~= s);
}

/// The first `}` of a text behind a prefix is where it is in the text alone.
pub proof fn lemma_find_close_shift(p: Seq<char>, t: Seq<char>, k: int)
    requires
        0 <= k,
    ensures
        find_close(p + t, p.len() + k) == p.len() + find_close(t, k),
    decreases t.len() - k,
{
    let u = p + t;
    if k < t.len() {
        assert(u[p.len() + k] == t[k]);
        if t[k] != '}' {
            lemma_find_close_shift(p, t, k + 1);
        }
    }
}

/// What substitution makes of a text behind a prefix does not depend on the
/// prefix.
pub proof fn lemma_expand_shift(p: Seq<char>, t: Seq<char>, i: int, m: Map<Seq<char>, Seq<char>>)
    requires
        0 <= i,
    ensures
        expand_from(p + t, p.len() + i, m) == expand_from(t, i, m),
    decreases t.len() - i,
{
    let u = p + t;
    let n = t.len() as int;
    let q = p.len() as int;
    if i >= n {
    } else {
        assert(u[q + i] == t[i]);
        if t[i] != SPECIAL_CHAR {
            lemma_expand_shift(p, t, i + 1, m);
        } else if i + 1 >= n {
        } else {
            assert(u[q + i + 1] == t[i + 1]);
            if t[i + 1] != '{' {
                lemma_expand_shift(p, t, i + 2, m);
            } else {
                let j = find_close(t, i + 2);
                lemma_find_close_shift(p, t, i + 2);
                lemma_find_close_bounds(t, i + 2);
                assert(find_close(u, q + i + 2) == q + j);
                if j >= n {
                    assert(u.subrange(q + i, u.len() as int) =~= t.subrange(i, n));
                } else {
                    assert(u.subrange(q + i + 2, q + j) =~= t.subrange(i + 2, j));
                    assert(u.subrange(q + i, q + j + 1) =~= t.subrange(i, j + 1));
                    lemma_expand_shift(p, t, j + 1, m);
                }
            }
        }
    }
}

/// A prefix without the token character passes through substitution as it
/// is.
pub proof fn lemma_expand_plain_prefix(
    p: Seq<char>,
    t: Seq<char>,
    k: int,
    m: Map<Seq<char>, Seq<char>>,
)
    requires
        0 <= k <= p.len(),
        !p.contains(SPECIAL_CHAR),
    ensures
        expand_from(p + t, k, m) == p.subrange(k, p.len() as int) + expand_from(t, 0, m),
    decreases p.len() - k,
{
    let u = p + t;
    if k == p.len() {
        lemma_expand_shift(p, t, 0, m);
        assert(p.subrange(k, p.len() as int) + expand_from(t, 0, m) =~= expand_from(t, 0, m));
    } else {
        assert(u[k] == p[k]);
        assert(p.contains(p[k]));
        lemma_expand_plain_prefix(p, t, k + 1, m);
        assert(seq![p[k]] + (p.subrange(k + 1, p.len() as int) + expand_from(t, 0, m))
            =~= p.subrange(k, p.len() as int) + expand_from(t, 0, m));
    }
}

/// No value of the map holds the token character.
pub open spec fn values_plain(m: Map<Seq<char>, Seq<char>>) -> bool {
    forall|k: Seq<char>| m.contains_key(k) ==> !(#[trigger] m[k]).contains(SPECIAL_CHAR)
}

/// Where no value of the map holds the token character, what substitution
/// gives is left as it is by a second substitution with the same map.
pub proof fn lemma_expand_twice(s: Seq<char>, i: int, m: Map<Seq<char>, Seq<char>>)
    requires
        0 <= i <= s.len(),
        values_plain(m),
    ensures
        expand_from(expand_from(s, i, m), 0, m) == expand_from(s, i, m),
    decreases s.len() - i,
{
    let n = s.len() as int;
    let e = expand_from(s, i, m);
    if i >= n {
    } else if s[i] != SPECIAL_CHAR {
        let rest = expand_from(s, i + 1, m);
        let p = seq![s[i]];
        lemma_expand_twice(s, i + 1, m);
        assert(!p.contains(SPECIAL_CHAR)) by {
            if p.contains(SPECIAL_CHAR) {
                let k = choose|k: int| 0 <= k < p.len() && p[k] == SPECIAL_CHAR;
            }
        }
        lemma_expand_plain_prefix(p, rest, 0, m);
        assert(p.subrange(0, 1) =~= p);
    } else if i + 1 >= n {
        assert(e == seq![SPECIAL_CHAR]);
        assert(e.len() == 1 && e[0] == SPECIAL_CHAR);
    } else if s[i + 1] != '{' {
        let rest = expand_from(s, i + 2, m);
        let p = seq![s[i], s[i + 1]];
        lemma_expand_twice(s, i + 2, m);
        lemma_expand_shift(p, rest, 0, m);
        assert((p + rest)[0] == s[i] && (p + rest)[1] == s[i + 1]);
        assert(seq![(p + rest)[0], (p + rest)[1]] =~= p);
    } else {
        let j = find_close(s, i + 2);
        lemma_find_close_bounds(s, i + 2);
        if j >= n {
            let u = s.subrange(i, n);
            assert(u[0] == SPECIAL_CHAR && u[1] == '{');
            lemma_find_close(u, 2, u.len() as int);
            assert(u.subrange(0, u.len() as int) =~= u);
        } else {
            let ident = s.subrange(i + 2, j);
            let rest = expand_from(s, j + 1, m);
            lemma_expand_twice(s, j + 1, m);
            if m.contains_key(ident) {
                let v = m[ident];
                lemma_expand_plain_prefix(v, rest, 0, m);
                assert(v.subrange(0, v.len() as int) =~= v);
            } else {
                let w = s.subrange(i, j + 1);
                let u = w + rest;
                assert(u[0] == SPECIAL_CHAR && u[1] == '{');
                assert forall|k: int| 2 <= k < w.len() - 1 implies u[k] != '}' by {
                    assert(u[k] == s[i + k]);
                }
                assert(u[w.len() - 1] == '}');
                lemma_find_close(u, 2, w.len() - 1);
                assert(u.subrange(2, w.len() - 1) =~= ident);
                assert(u.subrange(0, w.len() as int) =~= w);
                lemma_expand_shift(w, rest, 0, m);
            }
        }
    }
}

/// Where no value of the map holds the token character, substituting twice
/// with the same map gives what substituting once gives.
pub proof fn lemma_replace_idempotent(s: Seq<char>, m: Map<Seq<char>, Seq<char>>)
    requires
        values_plain(m),
    ensures
        expand(expand(s, m), m) == expand(s, m),
{
    lemma_expand_twice(s, 0, m);
}

} // verus!
