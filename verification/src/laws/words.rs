//! How a text falls into words.
use crate::text::{
    fields, first_index, join, lemma_fields_of_join, lemma_first_index, same, split_fields, views,
};
use vstd::prelude::*;

verus! {

/// The bytes of a text of ASCII characters.
pub open spec fn ascii(text: Seq<char>) -> Seq<u8> {
    text.map_values(|c: char| c as u8)
}

/// Words one behind the other, with a separator in front of each but the first.
pub open spec fn spelled(words: Seq<Seq<u8>>, sep: u8) -> Seq<u8>
    decreases words.len(),
{
    if words.len() == 0 {
        seq![]
    } else if words.len() == 1 {
        words[0]
    } else {
        spelled(words.drop_last(), sep) + seq![sep] + words.last()
    }
}

/// Whether no word holds the separator.
pub open spec fn are_words(words: Seq<Seq<u8>>, sep: u8) -> bool {
    forall|i: int, j: int| 0 <= i < words.len() && 0 <= j < words[i].len() ==> #[trigger] words[i][j] != sep
}

pub proof fn lemma_are_words(words: Seq<Seq<u8>>, sep: u8)
    ensures
        are_words(words, sep) <==> forall|i: int|
            0 <= i < words.len() ==> !(#[trigger] words[i]).contains(sep),
{
    if are_words(words, sep) {
        assert forall|i: int| 0 <= i < words.len() implies !(#[trigger] words[i]).contains(sep) by {
            if words[i].contains(sep) {
                let j = choose|j: int| 0 <= j < words[i].len() && words[i][j] == sep;
                assert(words[i][j] != sep);
            }
        }
    } else {
        let (i, j) = choose|i: int, j: int|
            0 <= i < words.len() && 0 <= j < words[i].len() && #[trigger] words[i][j] == sep;
        assert(words[i].contains(words[i][j]));
    }
}

pub proof fn lemma_spelled_front(words: Seq<Seq<u8>>, sep: u8)
    requires
        words.len() > 1,
    ensures
        spelled(words, sep) == words[0] + seq![sep] + spelled(words.skip(1), sep),
    decreases words.len(),
{
    let rest = words.skip(1);
    if words.len() == 2 {
        assert(words.drop_last() =~= seq![words[0]]);
        assert(rest =~= seq![words[1]]);
        assert(spelled(words.drop_last(), sep) == words[0]);
        assert(spelled(rest, sep) == words[1]);
        assert(words.last() == words[1]);
    } else {
        lemma_spelled_front(words.drop_last(), sep);
        assert(words.drop_last().skip(1) =~= rest.drop_last());
        assert(spelled(words, sep) =~= words[0] + seq![sep] + (spelled(rest.drop_last(), sep)
            + seq![sep] + rest.last()));
    }
}

pub proof fn lemma_spelled_is_join(words: Seq<Seq<u8>>, sep: u8)
    ensures
        spelled(words, sep) == join(words, sep),
    decreases words.len(),
{
    if words.len() > 1 {
        lemma_spelled_front(words, sep);
        lemma_spelled_is_join(words.skip(1), sep);
    }
}

pub proof fn lemma_fields_are_words(s: Seq<u8>, sep: u8)
    ensures
        fields(s, sep).len() > 0,
        are_words(fields(s, sep), sep),
        spelled(fields(s, sep), sep) == s,
    decreases s.len(),
{
    let p = fields(s, sep);
    let k = first_index(s, sep);
    lemma_first_index(s, sep);
    if k < s.len() {
        let rest = s.skip(k + 1);
        lemma_fields_are_words(rest, sep);
        let q = fields(rest, sep);
        assert(p.skip(1) =~= q);
        assert(p[0] == s.take(k));
        lemma_spelled_front(p, sep);
        assert(s =~= s.take(k) + seq![sep] + rest);
        assert forall|i: int, j: int| 0 <= i < p.len() && 0 <= j < p[i].len() implies #[trigger] p[i][j]
            != sep by {
            if i > 0 {
                assert(p[i] == q[i - 1]);
                assert(q[i - 1][j] != sep);
            }
        }
    }
}

/// A text splits into the words that it is made of: whatever words without the separator
/// spell it, those are the parts.
pub proof fn law_split(s: &[u8], sep: u8, words: Seq<Seq<u8>>, parts: Vec<&[u8]>)
    requires
        words.len() > 0,
        are_words(words, sep),
        s@ == spelled(words, sep),
        call_ensures(split_fields, (s, sep), parts),
    ensures
        parts@.len() == words.len(),
        forall|i: int| 0 <= i < words.len() ==> (#[trigger] parts@[i])@ == words[i],
{
    lemma_spelled_fields(words, sep);
    let p = views(parts@);
    assert(p.len() == parts@.len());
    assert forall|i: int| 0 <= i < words.len() implies (#[trigger] parts@[i])@ == words[i] by {
        assert(p[i] == parts@[i]@);
    }
}

pub proof fn lemma_spelled_fields(words: Seq<Seq<u8>>, sep: u8)
    requires
        words.len() > 0,
        are_words(words, sep),
    ensures
        fields(spelled(words, sep), sep) == words,
{
    lemma_spelled_is_join(words, sep);
    lemma_are_words(words, sep);
    lemma_fields_of_join(words, sep);
}

/// Every text is made of such words, and of no others.
pub proof fn law_words_of_text(s: Seq<u8>, sep: u8)
    ensures
        exists|words: Seq<Seq<u8>>|
            words.len() > 0 && are_words(words, sep) && #[trigger] spelled(words, sep) == s,
        forall|a: Seq<Seq<u8>>, b: Seq<Seq<u8>>|
            a.len() > 0 && b.len() > 0 && are_words(a, sep) && are_words(b, sep)
                && #[trigger] spelled(a, sep) == s && #[trigger] spelled(b, sep) == s ==> a == b,
{
    lemma_fields_are_words(s, sep);
    assert forall|a: Seq<Seq<u8>>, b: Seq<Seq<u8>>|
        a.len() > 0 && b.len() > 0 && are_words(a, sep) && are_words(b, sep) && #[trigger] spelled(
            a,
            sep,
        ) == s && #[trigger] spelled(b, sep) == s implies a == b by {
        lemma_spelled_fields(a, sep);
        lemma_spelled_fields(b, sep);
    }
}

/// Two texts are the same where they are equally long and agree at every place.
pub proof fn law_same(a: &[u8], b: &[u8], equal: bool)
    requires
        call_ensures(same, (a, b), equal),
    ensures
        equal <==> a@.len() == b@.len() && forall|i: int|
            0 <= i < a@.len() ==> #[trigger] a@[i] == b@[i],
{
    if a@.len() == b@.len() && forall|i: int| 0 <= i < a@.len() ==> #[trigger] a@[i] == b@[i] {
        assert(a@ =~= b@);
    }
}

} // verus!
