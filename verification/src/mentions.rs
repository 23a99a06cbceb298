//! Finding user mentions (`<@123>` or `<@!123>`) in a message and putting
//! display names in their place.

use vstd::prelude::*;
use crate::text::{chars_of, push_char};

verus! {

/// The pattern of a user mention in a Discord message; its first group holds
/// the user's id.
pub const MENTION_PATTERN: &'static str = "<@!?(\\d+)>";

/// What regex's `Regex::find_iter` yields, each match taken as its text, when
/// `pattern` is compiled by `Regex::new` and run over `haystack`; `None` when
/// `Regex::new` refuses the pattern.
pub uninterp spec fn regex_find_all(pattern: Seq<char>, haystack: Seq<char>) -> Option<Seq<Seq<char>>>;

/// What regex's `Captures::get(group)` gives, as text, for the first match of
/// `pattern` in `haystack` (`Regex::captures`); `None` when the pattern does
/// not compile, when nothing matches, or when the group took no part.
pub uninterp spec fn regex_capture(pattern: Seq<char>, haystack: Seq<char>, group: nat) -> Option<Seq<char>>;

/// Compiles `pattern` with regex's `Regex::new` and collects the text of every
/// match that `Regex::find_iter` yields over `haystack`. The contract claims
/// only that the result is the named function of the two texts: the regex
/// semantics themselves are left to the regex crate.
#[verifier::external_body]
fn find_all_matches(pattern: &str, haystack: &str) -> (res: Option<Vec<String>>)
    ensures
        res is None <==> regex_find_all(pattern@, haystack@) is None,
        res matches Some(v) ==> v.deep_view() == regex_find_all(pattern@, haystack@).unwrap(),
{
    match regex::Regex::new(pattern) {
        Ok(re) => Some(re.find_iter(haystack).map(|m| m.as_str().to_string()).collect()),
        Err(_) => None,
    }
}

/// Compiles `pattern` with regex's `Regex::new`, takes the first match in
/// `haystack` with `Regex::captures` and returns the text of capture group
/// `group` (`Captures::get`). The contract claims only that the result is the
/// named function of its arguments.
#[verifier::external_body]
fn capture_group(pattern: &str, haystack: &str, group: usize) -> (res: Option<String>)
    ensures
        res is None <==> regex_capture(pattern@, haystack@, group as nat) is None,
        res matches Some(s) ==> s@ == regex_capture(pattern@, haystack@, group as nat).unwrap(),
{
    match regex::Regex::new(pattern) {
        Ok(re) => re.captures(haystack).and_then(|c| c.get(group)).map(|m| m.as_str().to_string()),
        Err(_) => None,
    }
}

/// An ASCII decimal digit.
pub open spec fn is_ascii_digit(c: char) -> bool {
    '0' <= c && c <= '9'
}

/// The number that a string of ASCII digits writes in base ten.
pub open spec fn digits_value(s: Seq<char>) -> int
    decreases s.len(),
{
    if s.len() == 0 {
        0
    } else {
        digits_value(s.drop_last()) * 10 + (s.last() as int - '0' as int)
    }
}

/// `s` without one leading `+`.
pub open spec fn unsigned_digits(s: Seq<char>) -> Seq<char> {
    if s.len() > 0 && s[0] == '+' {
        s.drop_first()
    } else {
        s
    }
}

/// Every character of `s` is an ASCII digit.
pub open spec fn all_ascii_digits(s: Seq<char>) -> bool {
    forall|i: int| 0 <= i < s.len() ==> is_ascii_digit(#[trigger] s[i])
}

/// What std's `str::parse::<u64>` gives: an optional `+`, then one or more
/// ASCII digits whose value fits in a `u64`.
pub open spec fn parse_u64_spec(s: Seq<char>) -> Option<u64> {
    let d = unsigned_digits(s);
    if d.len() > 0 && all_ascii_digits(d) && digits_value(d) <= u64::MAX {
        Some(digits_value(d) as u64)
    } else {
        None
    }
}

proof fn lemma_digits_value_grows(s: Seq<char>, k: int)
    requires
        0 <= k <= s.len(),
        forall|i: int| 0 <= i < s.len() ==> is_ascii_digit(#[trigger] s[i]),
    ensures
        0 <= digits_value(s.take(k)) <= digits_value(s),
    decreases s.len() - k,
{
    if k < s.len() {
        let t = s.drop_last();
        assert forall|i: int| 0 <= i < t.len() implies is_ascii_digit(#[trigger] t[i]) by {
            assert(t[i] == s[i]);
        }
        assert(t.take(k) =~= s.take(k));
        lemma_digits_value_grows(t, k);
        assert(is_ascii_digit(s[s.len() - 1]));
    } else {
        assert(s.take(k) =~= s);
        lemma_digits_value_nonneg(s);
    }
}

proof fn lemma_digits_value_nonneg(s: Seq<char>)
    requires
        forall|i: int| 0 <= i < s.len() ==> is_ascii_digit(#[trigger] s[i]),
    ensures
        digits_value(s) >= 0,
    decreases s.len(),
{
    if s.len() > 0 {
        let t = s.drop_last();
        assert forall|i: int| 0 <= i < t.len() implies is_ascii_digit(#[trigger] t[i]) by {
            assert(t[i] == s[i]);
        }
        lemma_digits_value_nonneg(t);
        assert(is_ascii_digit(s[s.len() - 1]));
    }
}

proof fn lemma_digits_value_grows_if_digits(d: Seq<char>, k: int)
    requires
        0 <= k <= d.len(),
    ensures
        (forall|i: int| 0 <= i < d.len() ==> is_ascii_digit(#[trigger] d[i])) ==> digits_value(
            d.take(k),
        ) <= digits_value(d),
{
    if forall|i: int| 0 <= i < d.len() ==> is_ascii_digit(#[trigger] d[i]) {
        lemma_digits_value_grows(d, k);
    }
}

/// Reads a `u64` written in decimal, as std's `str::parse::<u64>` does.
pub fn parse_u64(s: &str) -> (res: Option<u64>)
    ensures
        res == parse_u64_spec(s@),
{
    let cs = chars_of(s);
    let n: usize = cs.len();
    let start: usize = if n > 0 && cs[0] == '+' { 1 } else { 0 };
    let ghost d = cs@.skip(start as int);
    proof {
        if start == 1 {
            assert(d =~= cs@.drop_first());
        } else {
            assert(d =~= cs@);
        }
    }
    assert(d == unsigned_digits(s@));
    if start == n {
        return None;
    }
    let mut acc: u64 = 0;
    let mut i: usize = start;
    while i < n
        invariant
            start <= i <= n,
            n == cs@.len(),
            d == cs@.skip(start as int),
            d == unsigned_digits(s@),
            forall|j: int| 0 <= j < i - start ==> is_ascii_digit(#[trigger] d[j]),
            acc == digits_value(d.take(i - start)),
        decreases n - i,
    {
        let c = cs[i];
        if !('0' <= c && c <= '9') {
            assert(d[i - start] == c);
            assert(!is_ascii_digit(d[i - start]));
            return None;
        }
        let digit: u64 = ((c as u32) - ('0' as u32)) as u64;
        assert(d.take(i - start + 1).drop_last() =~= d.take(i - start));
        assert(d.take(i - start + 1).last() == c);
        assert(digits_value(d.take(i - start + 1)) == acc * 10 + digit);
        match acc.checked_mul(10) {
            None => {
                proof {
                    lemma_digits_value_grows_if_digits(d, i - start + 1);
                }
                return None;
            },
            Some(m) => match m.checked_add(digit) {
                None => {
                    proof {
                        lemma_digits_value_grows_if_digits(d, i - start + 1);
                    }
                    return None;
                },
                Some(v) => {
                    acc = v;
                },
            },
        }
        i = i + 1;
    }
    assert(d.take(n - start) =~= d);
    Some(acc)
}

/// A mention found in a message: its text and the id of the user it names.
#[derive(Debug, Clone, PartialEq, Eq)]
pub struct Mention {
    pub text: String,
    pub user_id: u64,
}

impl View for Mention {
    type V = (Seq<char>, u64);

    open spec fn view(&self) -> (Seq<char>, u64) {
        (self.text@, self.user_id)
    }
}

/// The mention that a match `full` yields when its id group captured `digits`:
/// one exactly when the group took part and holds a `u64` in decimal.
pub open spec fn mention_of(full: Seq<char>, digits: Option<Seq<char>>) -> Option<(Seq<char>, u64)> {
    match digits {
        Some(d) => match parse_u64_spec(d) {
            Some(id) => Some((full, id)),
            None => None,
        },
        None => None,
    }
}

/// The mentions that a list of pattern matches yields, in order.
pub open spec fn mentions_of_matches(matches: Seq<Seq<char>>) -> Seq<(Seq<char>, u64)>
    decreases matches.len(),
{
    if matches.len() == 0 {
        Seq::empty()
    } else {
        let rest = mentions_of_matches(matches.drop_last());
        match mention_of(
            matches.last(),
            regex_capture(MENTION_PATTERN@, matches.last(), 1),
        ) {
            Some(m) => rest.push(m),
            None => rest,
        }
    }
}

/// The mentions found in `content`: none when the pattern does not compile.
pub open spec fn mentions_in(content: Seq<char>) -> Seq<(Seq<char>, u64)> {
    match regex_find_all(MENTION_PATTERN@, content) {
        Some(ms) => mentions_of_matches(ms),
        None => Seq::empty(),
    }
}

/// Turns one match of the mention pattern, with what its id group captured,
/// into a mention; a group that did not take part or that does not hold a
/// `u64` gives none.
pub fn mention_from_capture(full: String, digits: Option<String>) -> (res: Option<Mention>)
    ensures
        match mention_of(full@, match digits { Some(d) => Some(d@), None => None }) {
            Some(m) => res matches Some(r) && r@ == m,
            None => res is None,
        },
{
    match digits {
        None => None,
        Some(d) => match parse_u64(d.as_str()) {
            Some(id) => Some(Mention { text: full, user_id: id }),
            None => None,
        },
    }
}

/// The user mentions in `content`, in the order they occur.
pub fn find_mentions(content: &str) -> (res: Vec<Mention>)
    ensures
        res@.len() == mentions_in(content@).len(),
        forall|i: int| 0 <= i < res@.len() ==> #[trigger] res@[i]@ == mentions_in(content@)[i],
{
    let mut res: Vec<Mention> = Vec::new();
    match find_all_matches(MENTION_PATTERN, content) {
        None => res,
        Some(matches) => {
            let ghost ms = matches.deep_view();
            let mut i: usize = 0;
            while i < matches.len()
                invariant
                    i <= matches@.len(),
                    ms == matches.deep_view(),
                    ms == regex_find_all(MENTION_PATTERN@, content@).unwrap(),
                    regex_find_all(MENTION_PATTERN@, content@) is Some,
                    res@.len() == mentions_of_matches(ms.take(i as int)).len(),
                    forall|j: int|
                        0 <= j < res@.len() ==> #[trigger] res@[j]@ == mentions_of_matches(
                            ms.take(i as int),
                        )[j],
                decreases matches@.len() - i,
            {
                let full = matches[i].clone();
                let digits = capture_group(MENTION_PATTERN, full.as_str(), 1);
                assert(ms.take(i + 1).drop_last() =~= ms.take(i as int));
                assert(ms.take(i + 1).last() == ms[i as int]);
                assert(ms[i as int] == matches@[i as int]@);
                match mention_from_capture(full, digits) {
                    Some(m) => {
                        res.push(m);
                    },
                    None => {},
                }
                i = i + 1;
            }
            assert(ms.take(matches@.len() as int) =~= ms);
            res
        },
    }
}

/// The result of std's `str::replace(s, pat, rep)`: every occurrence of `pat`,
/// taken from the left without overlap, becomes `rep`. An empty `pat` occurs
/// before every character and at the end.
pub open spec fn replace_all(s: Seq<char>, pat: Seq<char>, rep: Seq<char>) -> Seq<char>
    decreases s.len(),
{
    if pat.len() == 0 {
        replace_empty(s, rep)
    } else if s.len() < pat.len() {
        s
    } else if s.take(pat.len() as int) == pat {
        rep + replace_all(s.skip(pat.len() as int), pat, rep)
    } else {
        seq![s[0]] + replace_all(s.drop_first(), pat, rep)
    }
}

/// `rep` put before every character of `s` and at its end.
pub open spec fn replace_empty(s: Seq<char>, rep: Seq<char>) -> Seq<char>
    decreases s.len(),
{
    if s.len() == 0 {
        rep
    } else {
        rep + seq![s[0]] + replace_empty(s.drop_first(), rep)
    }
}

/// Whether `p` occurs in `t` at position `at`.
fn occurs_at(t: &Vec<char>, p: &Vec<char>, at: usize) -> (res: bool)
    requires
        at + p@.len() <= t@.len(),
    ensures
        res == (t@.subrange(at as int, at + p@.len()) == p@),
{
    let tl: usize = t.len();
    let mut j: usize = 0;
    while j < p.len()
        invariant
            tl == t@.len(),
            j <= p@.len(),
            at + p@.len() <= t@.len(),
            forall|k: int| 0 <= k < j ==> t@[at + k] == p@[k],
        decreases p@.len() - j,
    {
        if t[at + j] != p[j] {
            assert(t@.subrange(at as int, at + p@.len())[j as int] != p@[j as int]);
            return false;
        }
        j = j + 1;
    }
    assert(t@.subrange(at as int, at + p@.len()) =~= p@);
    true
}

/// Replaces every occurrence of `pat` in `s` by `rep`, as std's `str::replace`.
pub fn replace_text(s: &str, pat: &str, rep: &str) -> (res: String)
    ensures
        res@ == replace_all(s@, pat@, rep@),
{
    let t = chars_of(s);
    let p = chars_of(pat);
    let n: usize = t.len();
    let plen: usize = p.len();
    let mut res = String::new();
    let mut i: usize = 0;
    assert(t@.skip(0) =~= t@);
    assert(res@ + replace_empty(t@, rep@) =~= replace_empty(t@, rep@));
    assert(res@ + replace_all(t@, p@, rep@) =~= replace_all(t@, p@, rep@));
    if plen == 0 {
        while i < n
            invariant
                i <= n,
                n == t@.len(),
                t@ == s@,
                p@.len() == 0,
                replace_empty(t@, rep@) == res@ + replace_empty(t@.skip(i as int), rep@),
            decreases n - i,
        {
            let ghost old_res = res@;
            assert(t@.skip(i as int).drop_first() =~= t@.skip(i + 1));
            res.append(rep);
            push_char(&mut res, t[i]);
            i = i + 1;
            assert(old_res + (rep@ + seq![t@[i - 1]] + replace_empty(t@.skip(i as int), rep@))
                =~= res@ + replace_empty(t@.skip(i as int), rep@));
        }
        assert(t@.skip(n as int).len() == 0);
        res.append(rep);
        assert(p@ =~= pat@);
        return res;
    }
    while i < n
        invariant
            i <= n,
            n == t@.len(),
            t@ == s@,
            p@ == pat@,
            plen == p@.len(),
            plen > 0,
            replace_all(t@, p@, rep@) == res@ + replace_all(t@.skip(i as int), p@, rep@),
        decreases n - i,
    {
        let ghost old_res = res@;
        let ghost rest = t@.skip(i as int);
        if n - i < plen {
            let mut k: usize = i;
            while k < n
                invariant
                    i <= k <= n,
                    n == t@.len(),
                    res@ == old_res + t@.subrange(i as int, k as int),
                decreases n - k,
            {
                push_char(&mut res, t[k]);
                k = k + 1;
                assert(res@ =~= old_res + t@.subrange(i as int, k as int));
            }
            assert(t@.subrange(i as int, n as int) =~= rest);
            proof {
                lemma_replace_all_short(t@.skip(n as int), p@, rep@);
            }
            assert(t@.skip(n as int) =~= Seq::<char>::empty());
            i = n;
        } else if occurs_at(&t, &p, i) {
            assert(rest.take(plen as int) =~= t@.subrange(i as int, i + plen));
            assert(rest.skip(plen as int) =~= t@.skip(i + plen));
            res.append(rep);
            i = i + plen;
            assert(old_res + (rep@ + replace_all(t@.skip(i as int), p@, rep@)) =~= res@
                + replace_all(t@.skip(i as int), p@, rep@));
        } else {
            assert(rest.take(plen as int) =~= t@.subrange(i as int, i + plen));
            assert(rest.drop_first() =~= t@.skip(i + 1));
            push_char(&mut res, t[i]);
            i = i + 1;
            assert(old_res + (seq![t@[i - 1]] + replace_all(t@.skip(i as int), p@, rep@))
                =~= res@ + replace_all(t@.skip(i as int), p@, rep@));
        }
    }
    proof {
        lemma_replace_all_short(t@.skip(n as int), p@, rep@);
    }
    assert(res@ + t@.skip(n as int) =~= res@);
    res
}

proof fn lemma_replace_all_short(s: Seq<char>, pat: Seq<char>, rep: Seq<char>)
    requires
        pat.len() > 0,
        s.len() < pat.len(),
    ensures
        replace_all(s, pat, rep) == s,
{
}

/// `s` after each `(from, to)` of `replacements`, in order, has had every
/// occurrence of `from` replaced by `to`.
pub open spec fn apply_replacements_spec(s: Seq<char>, replacements: Seq<(String, String)>) -> Seq<char>
    decreases replacements.len(),
{
    if replacements.len() == 0 {
        s
    } else {
        replace_all(
            apply_replacements_spec(s, replacements.drop_last()),
            replacements.last().0@,
            replacements.last().1@,
        )
    }
}

/// Replaces, one pair after the other, every occurrence of the first text of
/// a pair by its second text (mentions by display names).
pub fn apply_replacements(content: String, replacements: &Vec<(String, String)>) -> (res: String)
    ensures
        res@ == apply_replacements_spec(content@, replacements@),
{
    let mut cur = content;
    let mut i: usize = 0;
    while i < replacements.len()
        invariant
            i <= replacements@.len(),
            cur@ == apply_replacements_spec(content@, replacements@.take(i as int)),
        decreases replacements@.len() - i,
    {
        let (from, to) = &replacements[i];
        let next = replace_text(cur.as_str(), from.as_str(), to.as_str());
        assert(replacements@.take(i + 1).drop_last() =~= replacements@.take(i as int));
        cur = next;
        i = i + 1;
    }
    assert(replacements@.take(replacements@.len() as int) =~= replacements@);
    cur
}

/// The name under which a guild member is shown: the nickname when there is
/// one, else the user name.
pub fn member_display_name(nick: Option<String>, user_name: String) -> (res: String)
    ensures
        res@ == match nick {
            Some(n) => n@,
            None => user_name@,
        },
{
    match nick {
        Some(n) => n,
        None => user_name,
    }
}

/// Replacing a non-empty text by itself changes nothing.
pub proof fn lemma_replace_by_itself(s: Seq<char>, pat: Seq<char>)
    requires
        pat.len() > 0,
    ensures
        replace_all(s, pat, pat) == s,
    decreases s.len(),
{
    if s.len() < pat.len() {
    } else if s.take(pat.len() as int) == pat {
        lemma_replace_by_itself(s.skip(pat.len() as int), pat);
        assert(pat + s.skip(pat.len() as int) =~= s);
    } else {
        lemma_replace_by_itself(s.drop_first(), pat);
        assert(seq![s[0]] + s.drop_first() =~= s);
    }
}

/// A text that is exactly the (non-empty) pattern is replaced whole.
pub proof fn lemma_replace_whole_text(pat: Seq<char>, rep: Seq<char>)
    requires
        pat.len() > 0,
    ensures
        replace_all(pat, pat, rep) == rep,
{
    assert(pat.take(pat.len() as int) =~= pat);
    assert(pat.skip(pat.len() as int) =~= Seq::<char>::empty());
    assert(replace_all(Seq::<char>::empty(), pat, rep) == Seq::<char>::empty());
    assert(rep + Seq::<char>::empty() =~= rep);
}

/// An occurrence at the start of the text is replaced, and the rest of the
/// text is handled on its own.
pub proof fn lemma_replace_leading_occurrence(s: Seq<char>, pat: Seq<char>, rep: Seq<char>)
    requires
        pat.len() > 0,
    ensures
        replace_all(pat + s, pat, rep) == rep + replace_all(s, pat, rep),
{
    let t = pat + s;
    assert(t.take(pat.len() as int) =~= pat);
    assert(t.skip(pat.len() as int) =~= s);
}

/// An occurrence at the end of the text is replaced too: when no occurrence
/// of the pattern in `s + pat` starts inside `s` and reaches into the final
/// `pat`, the result is that of `s` followed by `rep`.
pub proof fn lemma_replace_trailing_occurrence(s: Seq<char>, pat: Seq<char>, rep: Seq<char>)
    requires
        pat.len() > 0,
        forall|i: int|
            0 <= i < s.len() && i + pat.len() > s.len() ==> #[trigger] (s + pat).subrange(
                i,
                i + pat.len(),
            ) != pat,
    ensures
        replace_all(s + pat, pat, rep) == replace_all(s, pat, rep) + rep,
    decreases s.len(),
{
    let plen = pat.len() as int;
    let t = s + pat;
    if s.len() == 0 {
        assert(t =~= pat);
        lemma_replace_whole_text(pat, rep);
        assert(replace_all(s, pat, rep) == s);
        assert(s + rep =~= rep);
    } else if t.take(plen) == pat {
        assert(t.subrange(0, 0 + plen) == t.take(plen));
        assert(plen <= s.len());
        let s2 = s.skip(plen);
        assert(s.take(plen) =~= t.take(plen));
        assert(t.skip(plen) =~= s2 + pat);
        assert forall|i: int|
            0 <= i < s2.len() && i + pat.len() > s2.len() implies #[trigger] (s2 + pat).subrange(
                i,
                i + pat.len(),
            ) != pat by {
            assert((s2 + pat).subrange(i, i + plen) =~= t.subrange(i + plen, i + plen + plen));
        }
        lemma_replace_trailing_occurrence(s2, pat, rep);
        assert(rep + (replace_all(s2, pat, rep) + rep) =~= (rep + replace_all(s2, pat, rep))
            + rep);
    } else {
        let s2 = s.drop_first();
        assert(t.drop_first() =~= s2 + pat);
        assert forall|i: int|
            0 <= i < s2.len() && i + pat.len() > s2.len() implies #[trigger] (s2 + pat).subrange(
                i,
                i + pat.len(),
            ) != pat by {
            assert((s2 + pat).subrange(i, i + plen) =~= t.subrange(i + 1, i + 1 + plen));
        }
        lemma_replace_trailing_occurrence(s2, pat, rep);
        if s.len() < plen {
            assert(replace_all(s, pat, rep) == s);
            lemma_replace_all_short(s2, pat, rep);
            assert(seq![t[0]] + (s2 + rep) =~= s + rep);
        } else {
            assert(s.take(plen) =~= t.take(plen));
            assert(seq![t[0]] + (replace_all(s2, pat, rep) + rep) =~= (seq![s[0]] + replace_all(
                s2,
                pat,
                rep,
            )) + rep);
        }
    }
}

/// Where a non-empty text does not occur, replacing it changes nothing.
pub proof fn lemma_replace_absent(s: Seq<char>, pat: Seq<char>, rep: Seq<char>)
    requires
        pat.len() > 0,
        forall|i: int| 0 <= i <= s.len() - pat.len() ==> #[trigger] s.subrange(i, i + pat.len()) != pat,
    ensures
        replace_all(s, pat, rep) == s,
    decreases s.len(),
{
    if s.len() < pat.len() {
    } else {
        assert(s.subrange(0, 0 + pat.len() as int) != pat);
        assert(s.subrange(0, pat.len() as int) =~= s.take(pat.len() as int));
        let t = s.drop_first();
        assert forall|i: int| 0 <= i <= t.len() - pat.len() implies #[trigger] t.subrange(i, i + pat.len()) != pat by {
            assert(t.subrange(i, i + pat.len()) =~= s.subrange(i + 1, i + 1 + pat.len()));
        }
        lemma_replace_absent(t, pat, rep);
        assert(seq![s[0]] + t =~= s);
    }
}

} // verus!
