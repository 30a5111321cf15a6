//! Short-name derivation: the retrieval key of a partition is the final
//! segment of its concept identifier, the longest suffix that holds no
//! path or fragment separator.

use vstd::prelude::*;

verus! {

/// True of the characters that end a path-like segment in a concept
/// identifier: the URI path separator and the fragment separator.
pub open spec fn is_separator(c: char) -> bool {
    c == '/' || c == '#'
}

/// The short name of an identifier: its longest suffix free of separators.
/// For `http://ex.org/onto#Widget` this is `Widget`; for an identifier
/// without separators it is the identifier itself.
pub open spec fn short_name_of(id: Seq<char>) -> Seq<char>
    decreases id.len(),
{
    if id.len() == 0 {
        id
    } else if is_separator(id.last()) {
        Seq::empty()
    } else {
        short_name_of(id.drop_last()).push(id.last())
    }
}

/// Derive the short name of `id`: the suffix after the last `/` or `#`,
/// or all of `id` when it holds neither.
pub fn short_name(id: &String) -> (r: String)
    ensures
        r@ == short_name_of(id@),
{
    let s: &str = id.as_str();
    let n: usize = s.unicode_len();
    let mut cut: usize = 0;
    let mut i: usize = 0;
    while i < n
        invariant
            i <= n,
            cut <= i,
            n == s@.len(),
            s@ == id@,
            forall|j: int| cut <= j < i ==> !is_separator(s@[j]),
            cut > 0 ==> is_separator(s@[cut - 1]),
        decreases n - i,
    {
        let c = s.get_char(i);
        if c == '/' || c == '#' {
            cut = i + 1;
        }
        i = i + 1;
    }
    proof {
        lemma_short_name_after_separator(id@, cut as int);
    }
    let tail: &str = s.substring_char(cut, n);
    tail.to_owned()
}

/// The suffix of `id` from `cut` is its short name, provided everything
/// after `cut` is separator-free and `cut` is either the start or sits
/// just after a separator.
proof fn lemma_short_name_after_separator(id: Seq<char>, cut: int)
    requires
        0 <= cut <= id.len(),
        forall|j: int| cut <= j < id.len() ==> !is_separator(id[j]),
        cut > 0 ==> is_separator(id[cut - 1]),
    ensures
        short_name_of(id) == id.subrange(cut, id.len() as int),
    decreases id.len() - cut,
{
    if cut == id.len() {
        if cut == 0 {
            assert(short_name_of(id) =~= id.subrange(0, 0));
        } else {
            assert(short_name_of(id) =~= id.subrange(cut, id.len() as int));
        }
    } else {
        lemma_short_name_after_separator(id.drop_last(), cut);
        assert(short_name_of(id) =~= id.subrange(cut, id.len() as int));
    }
}

/// A derived short name never holds a separator, whatever the identifier:
/// the key handed to the store or the filesystem cannot carry a path or
/// fragment separator out of the identifier.
pub proof fn lemma_short_name_separator_free(id: Seq<char>)
    ensures
        forall|j: int| 0 <= j < short_name_of(id).len() ==> !is_separator(
            #[trigger] short_name_of(id)[j],
        ),
    decreases id.len(),
{
    if id.len() == 0 {
    } else if is_separator(id.last()) {
    } else {
        lemma_short_name_separator_free(id.drop_last());
        let pre = short_name_of(id.drop_last());
        assert forall|j: int| 0 <= j < short_name_of(id).len() implies !is_separator(
            short_name_of(id)[j],
        ) by {
            if j < pre.len() {
                assert(short_name_of(id)[j] == pre[j]);
            } else {
                assert(short_name_of(id)[j] == id.last());
            }
        }
    }
}

/// For an identifier free of separators, the short name is the identifier
/// itself.
pub proof fn lemma_short_name_of_plain_identifier(id: Seq<char>)
    requires
        forall|j: int| 0 <= j < id.len() ==> !is_separator(id[j]),
    ensures
        short_name_of(id) == id,
{
    lemma_short_name_after_separator(id, 0);
    assert(id.subrange(0, id.len() as int) =~= id);
}

} // verus!
