use vstd::prelude::*;
use crate::text::{chars_of, replace_char, replace_char_spec, string_of, trim_chars, trim_spec};

verus! {

/// Modulus of 32-bit wrapping arithmetic.
pub open spec fn u32_modulus() -> nat {
    0x1_0000_0000
}

/// One step of the linear congruential generator used for seeded shuffles:
/// `state * 1664525 + 1013904223`, computed modulo 2^32.
pub open spec fn lcg_step(state: u32) -> u32 {
    ((state as nat * 1664525 + 1013904223) % u32_modulus()) as u32
}

/// `s` with the elements at positions `i` and `j` exchanged.
pub open spec fn swap_spec<T>(s: Seq<T>, i: int, j: int) -> Seq<T> {
    s.update(i, s[j]).update(j, s[i])
}

/// The Fisher-Yates passes for positions `i, i - 1, ..., 1`, starting from
/// the generator state `state`: each pass advances the generator and
/// exchanges position `k` with position `state % (k + 1)`.
pub open spec fn shuffle_passes<T>(s: Seq<T>, state: u32, i: nat) -> Seq<T>
    decreases i,
{
    if i == 0 {
        s
    } else {
        let next = lcg_step(state);
        let j = (next as nat % (i + 1)) as int;
        shuffle_passes(swap_spec(s, i as int, j), next, (i - 1) as nat)
    }
}

/// The seeded shuffle of `s`: sequences of at most one element are left as
/// they are; otherwise the passes run from the last position down to 1.
pub open spec fn seeded_shuffle<T>(s: Seq<T>, seed: u32) -> Seq<T> {
    if s.len() <= 1 {
        s
    } else {
        shuffle_passes(s, seed, (s.len() - 1) as nat)
    }
}

proof fn lemma_swap_same_multiset<T>(s: Seq<T>, i: int, j: int)
    requires
        0 <= i < s.len(),
        0 <= j < s.len(),
    ensures
        swap_spec(s, i, j).to_multiset() =~= s.to_multiset(),
        swap_spec(s, i, j).len() == s.len(),
{
    broadcast use {vstd::seq_lib::to_multiset_update, vstd::multiset::group_multiset_properties};

    if i == j {
        assert(swap_spec(s, i, j) =~= s);
    } else {
        let m = s.to_multiset();
        let s1 = s.update(i, s[j]);
        let m1 = m.insert(s[j]).remove(s[i]);
        assert(s1.to_multiset() == m1);
        assert(s1[j] == s[j]);
        let m2 = m1.insert(s[i]).remove(s[j]);
        assert(s1.update(j, s[i]).to_multiset() == m2);
        assert(m.count(s[i]) > 0) by {
            vstd::seq_lib::to_multiset_contains(s, s[i]);
        }
        assert(m2 =~= m);
    }
}

proof fn lemma_passes_same_multiset<T>(s: Seq<T>, state: u32, i: nat)
    requires
        i < s.len(),
    ensures
        shuffle_passes(s, state, i).to_multiset() =~= s.to_multiset(),
        shuffle_passes(s, state, i).len() == s.len(),
    decreases i,
{
    if i > 0 {
        let next = lcg_step(state);
        let j = (next as nat % (i + 1)) as int;
        lemma_swap_same_multiset(s, i as int, j);
        lemma_passes_same_multiset(swap_spec(s, i as int, j), next, (i - 1) as nat);
    }
}

/// Law: a seeded shuffle is a permutation of its input (same length, same
/// multiset of elements).
pub proof fn lemma_seeded_shuffle_is_permutation<T>(s: Seq<T>, seed: u32)
    ensures
        seeded_shuffle(s, seed).len() == s.len(),
        seeded_shuffle(s, seed).to_multiset() =~= s.to_multiset(),
{
    if s.len() > 1 {
        lemma_passes_same_multiset(s, seed, (s.len() - 1) as nat);
    }
}

/// Advances the generator with 32-bit wrapping arithmetic.
fn next_lcg_state(state: u32) -> (res: u32)
    ensures
        res == lcg_step(state),
{
    let m = state.wrapping_mul(1664525);
    let res = m.wrapping_add(1013904223);
    proof {
        let x = state as int * 1664525;
        assert(m as int == x % 0x1_0000_0000);
        vstd::arithmetic::div_mod::lemma_add_mod_noop(x, 1013904223, 0x1_0000_0000);
        assert((1013904223int % 0x1_0000_0000) == 1013904223);
        assert(0 <= m < 0x1_0000_0000);
        if m + 1013904223 > u32::MAX {
            assert((m as int + 1013904223) % 0x1_0000_0000 == m as int + 1013904223 - 0x1_0000_0000);
        } else {
            assert((m as int + 1013904223) % 0x1_0000_0000 == m as int + 1013904223);
        }
    }
    res
}

/// Exchanges the elements at positions `i` and `j` of `v`.
fn swap_elements<T>(v: &mut Vec<T>, i: usize, j: usize)
    requires
        i < old(v).len(),
        j < old(v).len(),
    ensures
        final(v)@ == swap_spec(old(v)@, i as int, j as int),
{
    if i == j {
        proof {
            assert(swap_spec(old(v)@, i as int, j as int) =~= old(v)@);
        }
        return ;
    }
    let (lo, hi) = if i < j { (i, j) } else { (j, i) };
    let ghost s = v@;
    let high = v.remove(hi);
    let low = v.remove(lo);
    v.insert(lo, high);
    v.insert(hi, low);
    assert(v@ =~= swap_spec(s, i as int, j as int));
}

/// Shuffles a vector deterministically from `seed`, the same way on every
/// platform: a Fisher-Yates shuffle driven by a 32-bit linear congruential
/// generator. The result is a permutation of the input, and a vector of at
/// most one element comes back as it is. (On a longer vector a pass would
/// take `u32::MAX` as its position, whose bound `position + 1` does not fit in
/// 32 bits.)
pub fn seeded_vector_shuffle<T>(elements: Vec<T>, seed: u32) -> (res: Vec<T>)
    requires
        elements@.len() <= u32::MAX,
    ensures
        res@ == seeded_shuffle(elements@, seed),
        res@.len() == elements@.len(),
        res@.to_multiset() =~= elements@.to_multiset(),
        elements@.len() <= 1 ==> res@ == elements@,
{
    proof {
        lemma_seeded_shuffle_is_permutation(elements@, seed);
    }
    let mut elements = elements;
    let len = elements.len();
    if len <= 1 {
        return elements;
    }
    let ghost input = elements@;
    let mut state: u32 = seed;
    let mut i: usize = len - 1;
    while i >= 1
        invariant
            1 <= len <= u32::MAX,
            input.len() == len,
            elements@.len() == len,
            i < len,
            shuffle_passes(elements@, state, i as nat) == seeded_shuffle(input, seed),
        decreases i,
    {
        let ghost prev_state = state;
        let ghost before = elements@;
        state = next_lcg_state(state);
        let bound: u32 = (i as u32) + 1;
        let j: u32 = state % bound;
        swap_elements(&mut elements, i, j as usize);
        proof {
            assert(bound as nat == i + 1);
            assert(j as nat == state as nat % (i as nat + 1));
            assert(shuffle_passes(before, prev_state, i as nat) == shuffle_passes(
                elements@,
                state,
                (i - 1) as nat,
            ));
        }
        i = i - 1;
    }
    elements
}

} // verus!

verus! {

/// Picks the element at position `seed % len` of the collected elements, or
/// nothing when there are none.
pub fn select_random_element<T>(elements: Vec<T>, seed: u32) -> (res: Option<T>)
    ensures
        elements@.len() == 0 ==> res is None,
        elements@.len() > 0 ==> res == Some(elements@[(seed as nat % elements@.len()) as int]),
{
    let mut elements = elements;
    if elements.len() == 0 {
        None
    } else {
        let idx = (seed as usize) % elements.len();
        Some(elements.remove(idx))
    }
}

} // verus!

verus! {

/// The pattern of a reasoning block that some models emit before answering.
pub const THINK_BLOCK_PATTERN: &'static str = "(?s)<think>.*?</think>";

/// The tag that opens a reasoning block.
pub open spec fn think_open() -> Seq<char> {
    seq!['<', 't', 'h', 'i', 'n', 'k', '>']
}

/// The tag that closes a reasoning block.
pub open spec fn think_close() -> Seq<char> {
    seq!['<', '/', 't', 'h', 'i', 'n', 'k', '>']
}

/// The position of the first occurrence of `pat` in `t` at or after `k`.
pub open spec fn find_from(t: Seq<char>, pat: Seq<char>, k: int) -> Option<int>
    decreases t.len() + 1 - k,
{
    if k < 0 || k + pat.len() > t.len() {
        None
    } else if t.subrange(k, k + pat.len()) == pat {
        Some(k)
    } else {
        find_from(t, pat, k + 1)
    }
}

/// An occurrence found at or after `k` lies within `t`.
pub proof fn lemma_find_from_bounds(t: Seq<char>, pat: Seq<char>, k: int)
    ensures
        find_from(t, pat, k) matches Some(i) ==> k <= i && 0 <= i && i + pat.len() <= t.len(),
    decreases t.len() + 1 - k,
{
    if !(k < 0 || k + pat.len() > t.len()) && t.subrange(k, k + pat.len()) != pat {
        lemma_find_from_bounds(t, pat, k + 1);
    }
}

/// `t` without its reasoning blocks, as `(?s)<think>.*?</think>` replaced by
/// nothing leaves it: the leftmost `<think>` is taken out together with the
/// text up to the first `</think>` after it, and the search goes on after
/// that; once a `<think>` has no `</think>` after it, nothing more matches.
pub open spec fn strip_think_blocks(t: Seq<char>) -> Seq<char>
    decreases t.len(),
{
    match find_from(t, think_open(), 0) {
        None => t,
        Some(i) => match find_from(t, think_close(), i + think_open().len()) {
            None => t,
            Some(j) => {
                proof {
                    lemma_find_from_bounds(t, think_close(), i + think_open().len());
                }
                t.take(i) + strip_think_blocks(t.skip(j + think_close().len()))
            },
        },
    }
}

/// Calls `regex::Regex::new(THINK_BLOCK_PATTERN)` and
/// `Regex::replace_all(text, "")`. Claimed: the result is
/// `strip_think_blocks(text)`. With the `s` flag `.` matches every character,
/// line breaks too; `.*?` is lazy, so a match ends at the first `</think>`
/// after its `<think>`; `replace_all` replaces the leftmost matches, without
/// overlap, from left to right. The pattern is a valid one, so `Regex::new`
/// does not fail on it.
#[verifier::external_body]
fn remove_think_blocks(text: &str) -> (res: String)
    ensures
        res@ == strip_think_blocks(text@),
{
    match regex::Regex::new(THINK_BLOCK_PATTERN) {
        Ok(re) => re.replace_all(text, "").into_owned(),
        Err(_) => text.to_string(),
    }
}

/// The text of a response once the reasoning blocks are gone: line breaks
/// (`\n`, `\r`) become spaces and surrounding white space is trimmed.
pub open spec fn normalized_response(text: Seq<char>) -> Seq<char> {
    trim_spec(replace_char_spec(replace_char_spec(text, '\n', ' '), '\r', ' '))
}

/// A cleaned LLM response: reasoning blocks removed, line breaks turned into
/// spaces, surrounding white space trimmed.
pub open spec fn cleaned_response(text: Seq<char>) -> Seq<char> {
    normalized_response(strip_think_blocks(text))
}

/// Removes `<think>...</think>` blocks from an LLM response, turns line breaks
/// into spaces and trims the result.
pub fn clean_llm_response(text: &String) -> (res: String)
    ensures
        res@ == cleaned_response(text@),
{
    let removed = remove_think_blocks(text.as_str());
    let chars = chars_of(removed.as_str());
    let no_newlines = replace_char(&chars, '\n', ' ');
    let no_breaks = replace_char(&no_newlines, '\r', ' ');
    let trimmed = trim_chars(&no_breaks);
    string_of(&trimmed)
}

/// The range of a page of `len` items: from `offset` to `offset + limit`,
/// cut at the end of the items.
pub fn page_range(offset: usize, limit: u32, len: usize) -> (res: (usize, usize))
    requires
        offset <= len,
        offset + limit <= usize::MAX,
    ensures
        res.0 == offset,
        res.1 == (if offset + limit < len { offset + limit } else { len as int }),
        res.0 <= res.1 <= len,
{
    let end = offset + limit as usize;
    if end < len {
        (offset, end)
    } else {
        (offset, len)
    }
}

} // verus!
