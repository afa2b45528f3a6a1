//! Finding the links of a webpage, read as bytes.
use vstd::prelude::*;
use vstd::slice::*;

verus! {

/// The bytes that open a link: `<a href=`.
pub open spec fn link_start() -> Seq<u8> {
    seq![0x3cu8, 0x61u8, 0x20u8, 0x68u8, 0x72u8, 0x65u8, 0x66u8, 0x3du8]
}

/// The bytes that open a comment: `<!--`.
pub open spec fn comment_start() -> Seq<u8> {
    seq![0x3cu8, 0x21u8, 0x2du8, 0x2du8]
}

/// The bytes that close a comment: `-->`.
pub open spec fn comment_end() -> Seq<u8> {
    seq![0x2du8, 0x2du8, 0x3eu8]
}

/// `pattern` stands in `content` at `index`, and ends at `to` or before it.
pub open spec fn stands_at(content: Seq<u8>, pattern: Seq<u8>, index: int, to: int) -> bool {
    index + pattern.len() <= to && content.subrange(index, index + pattern.len()) == pattern
}

/// The first place from `from` on where `pattern` stands in `content` and ends at
/// `to` or before it; `to` when there is none.
pub open spec fn find(content: Seq<u8>, pattern: Seq<u8>, from: int, to: int) -> int
    decreases to - from,
{
    if from >= to {
        to
    } else if stands_at(content, pattern, from, to) {
        from
    } else {
        find(content, pattern, from + 1, to)
    }
}

/// The first place from `from` on, before `to`, that holds the byte `one` or the
/// byte `other`; `to` when there is none.
pub open spec fn find_byte(content: Seq<u8>, one: u8, other: u8, from: int, to: int) -> int
    decreases to - from,
{
    if from >= to {
        to
    } else if content[from] == one || content[from] == other {
        from
    } else {
        find_byte(content, one, other, from + 1, to)
    }
}

/// The links of the page from the place `position` on, in order, but for those
/// that repeat the link before them; `previous` is the last link found before.
///
/// A link is what follows `<a href=`: between quotes when a quote comes first,
/// and up to the first `>` or space otherwise. A link in a comment is left out,
/// with all that follows a comment that is not closed. The search ends at a link
/// that is not closed, or that starts with a byte that is no ASCII character.
pub open spec fn links_from(content: Seq<u8>, position: int, previous: Seq<u8>) -> Seq<Seq<u8>>
    decreases content.len() - position,
{
    let length = content.len() as int;
    let index = find(content, link_start(), position, length);
    if position < 0 || position >= length || index < position || index >= length {
        Seq::empty()
    } else {
        let comment = find(content, comment_start(), position, index);
        if comment < index {
            let end = find(content, comment_end(), comment + 4, length);
            if position < end + 3 <= length {
                links_from(content, end + 3, previous)
            } else {
                Seq::empty()
            }
        } else {
            let start = index + 8;
            if start >= length || content[start] >= 0x80 {
                Seq::empty()
            } else {
                let quoted = content[start] == 0x22 || content[start] == 0x27;
                let body = if quoted {
                    start + 1
                } else {
                    start
                };
                let end = if quoted {
                    find_byte(content, content[start], content[start], body, length)
                } else {
                    find_byte(content, 0x3e, 0x20, body, length)
                };
                if end >= length || end <= position || body < 0 || body > end {
                    Seq::empty()
                } else if content.subrange(body, end) == previous {
                    links_from(content, end, previous)
                } else {
                    seq![content.subrange(body, end)] + links_from(content, end, content.subrange(body, end))
                }
            }
        }
    }
}

/// The links of a page.
pub open spec fn links_of(content: Seq<u8>) -> Seq<Seq<u8>> {
    links_from(content, 0, Seq::empty())
}

/// The bytes of every slice of a list.
pub open spec fn views_of(list: Seq<&[u8]>) -> Seq<Seq<u8>> {
    Seq::new(list.len(), |k: int| list[k]@)
}

/// `find` is the first place where the pattern stands.
proof fn lemma_find(content: Seq<u8>, pattern: Seq<u8>, from: int, to: int, index: int)
    requires
        from <= index <= to,
        index < to ==> stands_at(content, pattern, index, to),
        forall|k: int| from <= k < index ==> !stands_at(content, pattern, k, to),
    ensures
        find(content, pattern, from, to) == index,
    decreases index - from,
{
    if from < index {
        lemma_find(content, pattern, from + 1, to, index);
    }
}

/// `find_byte` is the first place that holds one of the two bytes.
proof fn lemma_find_byte(content: Seq<u8>, one: u8, other: u8, from: int, to: int, index: int)
    requires
        from <= index <= to,
        index < to ==> content[index] == one || content[index] == other,
        forall|k: int| from <= k < index ==> content[k] != one && content[k] != other,
    ensures
        find_byte(content, one, other, from, to) == index,
    decreases index - from,
{
    if from < index {
        lemma_find_byte(content, one, other, from + 1, to, index);
    }
}

/// Tells whether two slices hold the same bytes.
pub fn same_bytes(left: &[u8], right: &[u8]) -> (same: bool)
    ensures
        same == (left@ == right@),
{
    if left.len() != right.len() {
        return false;
    }
    let mut index: usize = 0;
    while index < left.len()
        invariant
            left@.len() == right@.len(),
            index <= left@.len(),
            forall|j: int| 0 <= j < index ==> left@[j] == right@[j],
        decreases left@.len() - index,
    {
        if left[index] != right[index] {
            return false;
        }
        index += 1;
    }
    assert(left@ =~= right@);
    true
}

/// Tells whether `pattern` stands in `content` at `index`, and ends at `to` or before it.
fn is_at(content: &[u8], pattern: &[u8], index: usize, to: usize) -> (stands: bool)
    requires
        index <= to <= content@.len(),
    ensures
        stands == stands_at(content@, pattern@, index as int, to as int),
{
    if pattern.len() > to - index {
        return false;
    }
    let mut k: usize = 0;
    while k < pattern.len()
        invariant
            index + pattern@.len() <= to <= content@.len(),
            k <= pattern@.len(),
            forall|j: int| 0 <= j < k ==> content@[index + j] == pattern@[j],
        decreases pattern@.len() - k,
    {
        if content[index + k] != pattern[k] {
            assert(content@.subrange(index as int, index + pattern@.len())[k as int] != pattern@[k as int]);
            return false;
        }
        k += 1;
    }
    assert(content@.subrange(index as int, index + pattern@.len()) =~= pattern@);
    true
}

/// Finds the first place from `from` on where `pattern` stands in `content` and
/// ends at `to` or before it; `to` when there is none.
pub fn find_in(content: &[u8], pattern: &[u8], from: usize, to: usize) -> (index: usize)
    requires
        from <= to <= content@.len(),
    ensures
        index == find(content@, pattern@, from as int, to as int),
        from <= index <= to,
        index < to ==> index + pattern@.len() <= to,
{
    let mut index: usize = from;
    while index < to
        invariant
            from <= index <= to <= content@.len(),
            forall|k: int| from <= k < index ==> !stands_at(content@, pattern@, k, to as int),
        decreases to - index,
    {
        if is_at(content, pattern, index, to) {
            proof {
                lemma_find(content@, pattern@, from as int, to as int, index as int);
            }
            return index;
        }
        index += 1;
    }
    proof {
        lemma_find(content@, pattern@, from as int, to as int, to as int);
    }
    to
}

/// Finds the first place from `from` on, before `to`, that holds the byte `one`
/// or the byte `other`; `to` when there is none.
pub fn find_byte_in(content: &[u8], one: u8, other: u8, from: usize, to: usize) -> (index: usize)
    requires
        from <= to <= content@.len(),
    ensures
        index == find_byte(content@, one, other, from as int, to as int),
        from <= index <= to,
{
    let mut index: usize = from;
    while index < to
        invariant
            from <= index <= to <= content@.len(),
            forall|k: int| from <= k < index ==> content@[k] != one && content@[k] != other,
        decreases to - index,
    {
        if content[index] == one || content[index] == other {
            proof {
                lemma_find_byte(content@, one, other, from as int, to as int, index as int);
            }
            return index;
        }
        index += 1;
    }
    proof {
        lemma_find_byte(content@, one, other, from as int, to as int, to as int);
    }
    to
}

/// Returns the links of a webpage, in order, but for those that repeat the link before them.
pub fn links<'content>(content: &'content [u8]) -> (found: Vec<&'content [u8]>)
    ensures
        views_of(found@) == links_of(content@),
{
    let link_pattern: [u8; 8] = [0x3c, 0x61, 0x20, 0x68, 0x72, 0x65, 0x66, 0x3d];
    let open_pattern: [u8; 4] = [0x3c, 0x21, 0x2d, 0x2d];
    let close_pattern: [u8; 3] = [0x2d, 0x2d, 0x3e];
    assert(link_pattern@ =~= link_start());
    assert(open_pattern@ =~= comment_start());
    assert(close_pattern@ =~= comment_end());
    let length: usize = content.len();
    let mut found: Vec<&'content [u8]> = Vec::new();
    let mut previous: &'content [u8] = slice_subrange(content, 0, 0);
    let mut position: usize = 0;
    let mut done: bool = false;
    assert(previous@ =~= Seq::<u8>::empty());
    assert(views_of(found@) =~= Seq::<Seq<u8>>::empty());
    while !done
        invariant
            length == content@.len(),
            position <= length,
            link_pattern@ == link_start(),
            open_pattern@ == comment_start(),
            close_pattern@ == comment_end(),
            done ==> links_from(content@, position as int, previous@) == Seq::<Seq<u8>>::empty(),
            views_of(found@) + links_from(content@, position as int, previous@) == links_of(content@),
        decreases (if done { 0 } else { length - position + 1 }),
    {
        let ghost listed = views_of(found@);
        let index: usize = find_in(content, link_pattern.as_slice(), position, length);
        if index >= length {
            done = true;
        } else {
            let comment: usize = find_in(content, open_pattern.as_slice(), position, index);
            if comment < index {
                let end: usize = find_in(content, close_pattern.as_slice(), comment + 4, length);
                if end < length {
                    position = end + 3;
                } else {
                    done = true;
                    position = length;
                    assert(find(content@, link_start(), length as int, length as int) == length);
                }
            } else {
                let start: usize = index + 8;
                if start >= length || content[start] >= 0x80 {
                    done = true;
                    position = length;
                    assert(find(content@, link_start(), length as int, length as int) == length);
                } else {
                    let first: u8 = content[start];
                    let quoted: bool = first == 0x22 || first == 0x27;
                    let body: usize = if quoted {
                        start + 1
                    } else {
                        start
                    };
                    let end: usize = if quoted {
                        find_byte_in(content, first, first, body, length)
                    } else {
                        find_byte_in(content, 0x3e, 0x20, body, length)
                    };
                    if end >= length {
                        done = true;
                        position = length;
                        assert(find(content@, link_start(), length as int, length as int) == length);
                    } else {
                        let link: &'content [u8] = slice_subrange(content, body, end);
                        if !same_bytes(link, previous) {
                            found.push(link);
                            previous = link;
                            assert(views_of(found@) =~= listed.push(link@));
                            assert(listed.push(link@) + links_from(content@, end as int, link@) =~= listed + (
                            seq![link@] + links_from(content@, end as int, link@)));
                        }
                        position = end;
                    }
                }
            }
        }
    }
    assert(views_of(found@) + Seq::<Seq<u8>>::empty() =~= views_of(found@));
    found
}

} // verus!
