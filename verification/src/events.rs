//! How the bot reacts to a message posted where it can read it.

use vstd::prelude::*;
use crate::text::chars_of;

verus! {

/// What std's `str::to_lowercase` gives for `s`.
pub uninterp spec fn lowercase(s: Seq<char>) -> Seq<char>;

/// std's `str::to_lowercase`: the Unicode lowercase mapping of every
/// character. The contract only names the result as a function of `s`.
#[verifier::external_body]
fn to_lowercase(s: &str) -> (res: String)
    ensures
        res@ == lowercase(s@),
{
    s.to_lowercase()
}

/// Whether `s` ends with `quoi`.
pub open spec fn ends_with_quoi_spec(s: Seq<char>) -> bool {
    s.len() >= 4 && s.skip(s.len() - 4) == seq!['q', 'u', 'o', 'i']
}

/// Whether an already lowercased text ends with `quoi`.
pub fn ends_with_quoi(lowered: &str) -> (res: bool)
    ensures
        res == ends_with_quoi_spec(lowered@),
{
    let cs = chars_of(lowered);
    let n: usize = cs.len();
    if n < 4 {
        return false;
    }
    let r = cs[n - 4] == 'q' && cs[n - 3] == 'u' && cs[n - 2] == 'o' && cs[n - 1] == 'i';
    let ghost tail = cs@.skip(n - 4);
    let ghost quoi = seq!['q', 'u', 'o', 'i'];
    assert(tail[0] == cs@[n - 4] && tail[1] == cs@[n - 3] && tail[2] == cs@[n - 2] && tail[3]
        == cs@[n - 1]);
    if r {
        assert(tail =~= quoi);
    } else {
        assert(tail.len() == 4);
        assert(tail != quoi) by {
            if tail == quoi {
                assert(tail[0] == quoi[0] && tail[1] == quoi[1] && tail[2] == quoi[2] && tail[3]
                    == quoi[3]);
            }
        }
    }
    r
}

/// Any text followed by `quoi` ends with `quoi`, whatever comes before;
/// and a text that ends with `quoi` is some text followed by `quoi`.
pub proof fn lemma_ends_with_quoi_exactly(x: Seq<char>, t: Seq<char>)
    ensures
        ends_with_quoi_spec(x + seq!['q', 'u', 'o', 'i']),
        ends_with_quoi_spec(t) <==> (t.len() >= 4 && t[t.len() - 4] == 'q' && t[t.len() - 3]
            == 'u' && t[t.len() - 2] == 'o' && t[t.len() - 1] == 'i'),
{
    let q = seq!['q', 'u', 'o', 'i'];
    let xq = x + q;
    assert(xq.skip(xq.len() - 4) =~= q);
    if t.len() >= 4 {
        let tail = t.skip(t.len() - 4);
        if t[t.len() - 4] == 'q' && t[t.len() - 3] == 'u' && t[t.len() - 2] == 'o' && t[t.len()
            - 1] == 'i' {
            assert(tail =~= q);
        }
        if tail == q {
            assert(tail[0] == q[0] && tail[1] == q[1] && tail[2] == q[2] && tail[3] == q[3]);
        }
    }
}

/// The answer to a message that ends with "quoi", whatever its case: "feur".
pub fn feur_reply(content: &str) -> (res: Option<String>)
    ensures
        ends_with_quoi_spec(lowercase(content@)) ==> (res matches Some(r) && r@ == "feur"@),
        !ends_with_quoi_spec(lowercase(content@)) ==> res is None,
{
    let lowered = to_lowercase(content);
    if ends_with_quoi(lowered.as_str()) {
        Some(String::from_str("feur"))
    } else {
        None
    }
}

/// Whether `user` is among the users a message mentions.
pub fn mentions_user(mentioned: &Vec<u64>, user: u64) -> (res: bool)
    ensures
        res == mentioned@.contains(user),
{
    let mut i: usize = 0;
    while i < mentioned.len()
        invariant
            i <= mentioned@.len(),
            forall|j: int| 0 <= j < i ==> mentioned@[j] != user,
        decreases mentioned@.len() - i,
    {
        if mentioned[i] == user {
            assert(mentioned@[i as int] == user);
            return true;
        }
        i = i + 1;
    }
    false
}

} // verus!
