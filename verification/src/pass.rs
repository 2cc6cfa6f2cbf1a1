//! The random confirmation phrase: a few words drawn without replacement
//! from a fixed list and joined by single spaces. A quit attempt from a
//! dirty state must retype the phrase exactly.

use vstd::prelude::*;
use vstd::seq_lib::group_to_multiset_ensures;
use vstd::string::StringExecFns;

use rand::seq::SliceRandom;

use crate::text::push_char;

verus! {

/// How many words the fixed list offers.
pub const WORD_LIST_LEN: usize = 15;

/// The word at position `i` of the fixed list.
pub open spec fn word_spec(i: int) -> Seq<char> {
    if i == 0 {
        "dilate"@
    } else if i == 1 {
        "indict"@
    } else if i == 2 {
        "sacrilegious"@
    } else if i == 3 {
        "ingenious"@
    } else if i == 4 {
        "minuscule"@
    } else if i == 5 {
        "onomatopoeia"@
    } else if i == 6 {
        "accommodate"@
    } else if i == 7 {
        "conscientious"@
    } else if i == 8 {
        "Wednesday"@
    } else if i == 9 {
        "acquiesce"@
    } else if i == 10 {
        "bologna"@
    } else if i == 11 {
        "fuchsia"@
    } else if i == 12 {
        "nauseous"@
    } else if i == 13 {
        "orangutan"@
    } else {
        "paraphernalia"@
    }
}

/// The word at position `i` of the fixed list.
pub fn word(i: usize) -> (r: &'static str)
    requires
        i < WORD_LIST_LEN,
    ensures
        r@ == word_spec(i as int),
{
    match i {
        0 => "dilate",
        1 => "indict",
        2 => "sacrilegious",
        3 => "ingenious",
        4 => "minuscule",
        5 => "onomatopoeia",
        6 => "accommodate",
        7 => "conscientious",
        8 => "Wednesday",
        9 => "acquiesce",
        10 => "bologna",
        11 => "fuchsia",
        12 => "nauseous",
        13 => "orangutan",
        _ => "paraphernalia",
    }
}

/// How many words a phrase of `n` requested words holds: `n`, capped by
/// the length of the fixed list.
pub open spec fn word_count(n: int) -> int {
    if n <= WORD_LIST_LEN as int {
        n
    } else {
        WORD_LIST_LEN as int
    }
}

/// The chosen words, joined by single spaces.
pub open spec fn joined_words(idxs: Seq<usize>) -> Seq<char>
    decreases idxs.len(),
{
    if idxs.len() == 0 {
        Seq::empty()
    } else if idxs.len() == 1 {
        word_spec(idxs[0] as int)
    } else {
        joined_words(idxs.drop_last()) + seq![' '] + word_spec(idxs.last() as int)
    }
}

/// What a generated phrase for `n` requested words looks like: the words
/// at some distinct positions of the fixed list, joined by single spaces.
pub open spec fn is_challenge(ch: Seq<char>, n: int) -> bool {
    exists|idxs: Seq<usize>|
        {
            &&& idxs.len() == word_count(n)
            &&& (forall|i: int| 0 <= i < idxs.len() ==> (#[trigger] idxs[i]) < WORD_LIST_LEN)
            &&& idxs.no_duplicates()
            &&& ch == joined_words(idxs)
        }
}

/// Relies on rand's `SliceRandom::shuffle`: permutes the elements of the
/// slice in place; no element is added, dropped, or changed.
#[verifier::external_body]
fn shuffle_indices(v: &mut Vec<usize>)
    ensures
        final(v)@.to_multiset() == old(v)@.to_multiset(),
{
    v.as_mut_slice().shuffle(&mut rand::rng());
}

/// A fresh confirmation phrase of `num_words` words (capped by the fixed
/// list's length), drawn without replacement and joined by single spaces.
pub fn gen_pass(num_words: usize) -> (r: String)
    ensures
        is_challenge(r@, num_words as int),
{
    let mut idxs: Vec<usize> = Vec::new();
    let mut i: usize = 0;
    while i < WORD_LIST_LEN
        invariant
            i <= WORD_LIST_LEN,
            idxs@.len() == i,
            forall|j: int| 0 <= j < i ==> #[trigger] idxs@[j] == j,
        decreases WORD_LIST_LEN - i,
    {
        idxs.push(i);
        i = i + 1;
    }
    let ghost base = idxs@;
    shuffle_indices(&mut idxs);
    proof {
        broadcast use group_to_multiset_ensures;

        assert(base.no_duplicates());
        base.lemma_multiset_has_no_duplicates();
        idxs@.lemma_multiset_has_no_duplicates_conv();
        assert(idxs@.len() == idxs@.to_multiset().len());
        assert(base.len() == base.to_multiset().len());
        assert(idxs@.len() == base.len());
        assert forall|j: int| 0 <= j < idxs@.len() implies (#[trigger] idxs@[j])
            < WORD_LIST_LEN by {
            assert(idxs@.contains(idxs@[j]));
            assert(idxs@.to_multiset().count(idxs@[j]) > 0);
            assert(base.contains(idxs@[j]));
            let w = choose|w: int| 0 <= w < base.len() && base[w] == idxs@[j];
            assert(base[w] == w);
        }
    }
    let k: usize = if num_words < WORD_LIST_LEN {
        num_words
    } else {
        WORD_LIST_LEN
    };
    let mut out = String::new();
    let mut t: usize = 0;
    while t < k
        invariant
            t <= k <= WORD_LIST_LEN,
            k == word_count(num_words as int),
            idxs@.len() == WORD_LIST_LEN,
            forall|j: int| 0 <= j < idxs@.len() ==> (#[trigger] idxs@[j]) < WORD_LIST_LEN,
            idxs@.no_duplicates(),
            out@ == joined_words(idxs@.take(t as int)),
        decreases k - t,
    {
        if t > 0 {
            push_char(&mut out, ' ');
        }
        let w = word(idxs[t]);
        out.append(w);
        proof {
            let taken = idxs@.take(t + 1);
            assert(taken.drop_last() =~= idxs@.take(t as int));
            assert(taken.last() == idxs@[t as int]);
            if t == 0 {
                assert(out@ =~= joined_words(taken));
            } else {
                assert(out@ =~= joined_words(taken));
            }
        }
        t = t + 1;
    }
    proof {
        let chosen = idxs@.take(k as int);
        assert(chosen.no_duplicates()) by {
            assert(forall|a: int, b: int|
                0 <= a < b < chosen.len() ==> chosen[a] == idxs@[a] && chosen[b] == idxs@[b]);
        }
        assert(chosen.len() == word_count(num_words as int));
        assert(forall|j: int| 0 <= j < chosen.len() ==> (#[trigger] chosen[j]) < WORD_LIST_LEN);
        assert(is_challenge(out@, num_words as int));
    }
    out
}

} // verus!
