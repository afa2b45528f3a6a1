//! Searching and comparing text, stated over sequences of characters.
use vstd::prelude::*;
use vstd::string::*;
use vstd::utf8::*;

verus! {

/// The index of the first `needle` in `text`, or the length of `text` when there is none.
pub open spec fn first_position(text: Seq<char>, needle: char) -> int
    decreases text.len(),
{
    if text.len() == 0 {
        0
    } else if text[0] == needle {
        0
    } else {
        1 + first_position(text.subrange(1, text.len() as int), needle)
    }
}

/// The index of the last `needle` in `text`, or -1 when there is none.
pub open spec fn last_position(text: Seq<char>, needle: char) -> int
    decreases text.len(),
{
    if text.len() == 0 {
        -1
    } else if text.last() == needle {
        text.len() - 1
    } else {
        last_position(text.drop_last(), needle)
    }
}

/// `first_position` is the one index that holds `needle` with no `needle` before it.
pub proof fn lemma_first_position(text: Seq<char>, needle: char, index: int)
    requires
        0 <= index <= text.len(),
        index < text.len() ==> text[index] == needle,
        forall|j: int| 0 <= j < index ==> text[j] != needle,
    ensures
        first_position(text, needle) == index,
    decreases text.len(),
{
    if text.len() != 0 && index != 0 {
        let rest = text.subrange(1, text.len() as int);
        assert(text[0] != needle);
        assert(forall|j: int| 0 <= j < index - 1 ==> rest[j] == text[j + 1]);
        lemma_first_position(rest, needle, index - 1);
    }
}

/// `last_position` is the one index that holds `needle` with no `needle` after it.
pub proof fn lemma_last_position(text: Seq<char>, needle: char, index: int)
    requires
        -1 <= index < text.len(),
        0 <= index ==> text[index] == needle,
        forall|j: int| index < j < text.len() ==> text[j] != needle,
    ensures
        last_position(text, needle) == index,
    decreases text.len(),
{
    if text.len() != 0 && index != text.len() - 1 {
        let rest = text.drop_last();
        assert(text.last() != needle);
        assert(forall|j: int| 0 <= j < rest.len() ==> rest[j] == text[j]);
        lemma_last_position(rest, needle, index);
    }
}

/// Finds the first `needle` in `text`; the length of `text` when there is none.
pub fn find_first(text: &str, needle: char) -> (index: usize)
    ensures
        index == first_position(text@, needle),
        index <= text@.len(),
{
    let length: usize = text.unicode_len();
    let mut index: usize = 0;
    while index < length
        invariant
            length == text@.len(),
            index <= length,
            forall|j: int| 0 <= j < index ==> text@[j] != needle,
        decreases length - index,
    {
        if text.get_char(index) == needle {
            proof {
                lemma_first_position(text@, needle, index as int);
            }
            return index;
        }
        index += 1;
    }
    proof {
        lemma_first_position(text@, needle, index as int);
    }
    index
}

/// Finds the last `needle` in `text`.
pub fn find_last(text: &str, needle: char) -> (index: Option<usize>)
    ensures
        match index {
            Some(i) => i == last_position(text@, needle) && i < text@.len(),
            None => last_position(text@, needle) == -1,
        },
{
    let length: usize = text.unicode_len();
    let mut index: usize = length;
    while index > 0
        invariant
            length == text@.len(),
            index <= length,
            forall|j: int| index <= j < length ==> text@[j] != needle,
        decreases index,
    {
        index -= 1;
        if text.get_char(index) == needle {
            proof {
                lemma_last_position(text@, needle, index as int);
            }
            return Some(index);
        }
    }
    proof {
        lemma_last_position(text@, needle, -1);
    }
    None
}

/// Tells whether two texts hold the same characters.
pub fn same_text(left: &str, right: &str) -> (same: bool)
    ensures
        same == (left@ == right@),
{
    let a = left.as_bytes();
    let b = right.as_bytes();
    if a.len() != b.len() {
        return false;
    }
    let mut index: usize = 0;
    while index < a.len()
        invariant
            a@ == left.spec_bytes(),
            b@ == right.spec_bytes(),
            a@.len() == b@.len(),
            index <= a@.len(),
            forall|j: int| 0 <= j < index ==> a@[j] == b@[j],
        decreases a@.len() - index,
    {
        if a[index] != b[index] {
            return false;
        }
        index += 1;
    }
    proof {
        assert(a@ =~= b@);
        encode_utf8_decode_utf8(left@);
        encode_utf8_decode_utf8(right@);
    }
    true
}

} // verus!
