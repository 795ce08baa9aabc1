//! The directory that a glob pattern is anchored in.

use vstd::prelude::*;
use crate::path::{copy_bytes, names_view, AbsolutePath, PathView};

verus! {

/// The characters that end the literal part of a pattern: `*`, `?`, `[`, `]`, `{` and `}`.
pub open spec fn is_wildcard(byte: u8) -> bool {
    byte == 0x2a || byte == 0x3f || byte == 0x5b || byte == 0x5d || byte == 0x7b || byte == 0x7d
}

/// Some character of the text is a wildcard.
pub open spec fn has_wildcard(text: Seq<u8>) -> bool {
    exists|i: int| 0 <= i < text.len() && is_wildcard(#[trigger] text[i])
}

/// How many characters of the text stand before its first wildcard.
pub open spec fn literal_len(text: Seq<u8>) -> nat
    decreases text.len(),
{
    if text.len() == 0 || is_wildcard(text[0]) {
        0
    } else {
        1 + literal_len(text.drop_first())
    }
}

/// The name `.`, which stands for the directory that it is read in.
pub open spec fn dot() -> Seq<u8> {
    seq![0x2eu8]
}

/// The names of the path that is left of a pattern when everything from the first wildcard on
/// is cut away. A last name that is cut down to nothing, or to `.`, adds no name.
pub open spec fn literal_names(names: Seq<Seq<u8>>) -> Seq<Seq<u8>>
    decreases names.len(),
{
    if names.len() == 0 {
        seq![]
    } else if !has_wildcard(names[0]) {
        seq![names[0]] + literal_names(names.drop_first())
    } else {
        let literal = names[0].take(literal_len(names[0]) as int);
        if literal.len() == 0 || literal == dot() {
            seq![]
        } else {
            seq![literal]
        }
    }
}

/// The parent of the literal path that a pattern starts with. There is none where the literal
/// path is a bare root, or where the wildcard already stands in the root.
pub open spec fn anchor(pattern: PathView) -> Option<PathView> {
    if has_wildcard(pattern.root) {
        None
    } else {
        PathView { root: pattern.root, names: literal_names(pattern.names) }.parent()
    }
}

pub(crate) proof fn lemma_literal_len(text: Seq<u8>, n: nat)
    requires
        n <= text.len(),
        forall|j: int| 0 <= j < n ==> !is_wildcard(#[trigger] text[j]),
        n == text.len() || is_wildcard(text[n as int]),
    ensures
        literal_len(text) == n,
        has_wildcard(text) == (n < text.len()),
    decreases n,
{
    if n > 0 {
        let rest = text.drop_first();
        assert forall|j: int| 0 <= j < n - 1 implies !is_wildcard(#[trigger] rest[j]) by {
            assert(rest[j] == text[j + 1]);
        }
        if n < text.len() {
            assert(rest[n - 1] == text[n as int]);
        }
        lemma_literal_len(rest, (n - 1) as nat);
    }
}

/// The number of characters before the first wildcard; the text's length where it has none.
fn literal_length(text: &Vec<u8>) -> (length: usize)
    ensures
        length <= text@.len(),
        length == literal_len(text@),
        has_wildcard(text@) == (length < text@.len()),
{
    let mut i: usize = 0;
    while i < text.len()
        invariant
            i <= text.len(),
            forall|j: int| 0 <= j < i ==> !is_wildcard(#[trigger] text@[j]),
        decreases text.len() - i,
    {
        let byte: u8 = text[i];
        if byte == 0x2a || byte == 0x3f || byte == 0x5b || byte == 0x5d || byte == 0x7b || byte
            == 0x7d {
            proof {
                lemma_literal_len(text@, i as nat);
            }
            return i;
        }
        i += 1;
    }
    proof {
        lemma_literal_len(text@, i as nat);
    }
    i
}

/// The first `length` characters of a text.
fn take_bytes(text: &Vec<u8>, length: usize) -> (taken: Vec<u8>)
    requires
        length <= text@.len(),
    ensures
        taken@ == text@.take(length as int),
{
    let mut taken = copy_bytes(text);
    taken.truncate(length);
    assert(taken@ =~= text@.take(length as int));
    taken
}

/// The directory that a glob pattern is anchored in: the parent of the path that is left when
/// everything from the first wildcard on is cut away.
pub fn anchor_directory(pattern: &AbsolutePath) -> (directory: Option<AbsolutePath>)
    ensures
        match directory {
            Some(directory) => anchor(pattern@) == Some(directory@),
            None => anchor(pattern@) is None,
        },
{
    if literal_length(&pattern.root) < pattern.root.len() {
        return None;
    }
    let mut names: Vec<Vec<u8>> = Vec::new();
    let mut i: usize = 0;
    let mut cut = false;
    let ghost all = pattern@.names;
    assert(all.skip(0) =~= all);
    while i < pattern.names.len() && !cut
        invariant
            i <= pattern.names.len(),
            all == pattern@.names,
            !cut ==> literal_names(all) == names_view(names@) + literal_names(all.skip(i as int)),
            cut ==> literal_names(all) == names_view(names@),
        decreases pattern.names.len() - i + (if cut { 0int } else { 1int }),
    {
        let ghost before = names@;
        let ghost rest = all.skip(i as int);
        assert(rest.drop_first() =~= all.skip(i + 1));
        assert(rest[0] == pattern.names@[i as int]@);
        let length = literal_length(&pattern.names[i]);
        if length == pattern.names[i].len() {
            names.push(copy_bytes(&pattern.names[i]));
            i += 1;
            assert(names_view(names@) =~= names_view(before).push(rest[0]));
            assert(names_view(before) + (seq![rest[0]] + literal_names(rest.drop_first()))
                =~= names_view(names@) + literal_names(all.skip(i as int)));
        } else {
            cut = true;
            let literal = take_bytes(&pattern.names[i], length);
            if literal.len() == 0 || (literal.len() == 1 && literal[0] == 0x2e) {
                assert(literal@.len() == 0 || literal@ =~= dot());
                assert(names_view(before) + Seq::<Seq<u8>>::empty() =~= names_view(names@));
            } else {
                assert(literal@ != dot()) by {
                    if literal@ == dot() {
                        assert(literal@.len() == 1 && literal@[0] == 0x2e);
                    }
                }
                let ghost text = literal@;
                names.push(literal);
                assert(names_view(names@) =~= names_view(before) + seq![text]);
            }
        }
    }
    assert(literal_names(all) =~= names_view(names@)) by {
        if !cut {
            assert(all.skip(i as int) =~= Seq::empty());
        }
    }
    AbsolutePath { root: copy_bytes(&pattern.root), names }.parent()
}

/// The directory that a pattern is anchored in contains everything that the pattern names: its
/// names are the first names of the pattern, and no wildcard stands in them.
pub proof fn anchor_holds_every_match(pattern: PathView)
    ensures
        anchor(pattern) matches Some(directory) ==> {
            &&& pattern.starts_with(directory)
            &&& forall|i: int|
                0 <= i < directory.names.len() ==> !has_wildcard(#[trigger] directory.names[i])
        },
{
    if anchor(pattern) is Some {
        let directory = anchor(pattern)->0;
        lemma_literal_names(pattern.names);
        assert(pattern.names.take(directory.names.len() as int) =~= directory.names);
    }
}

proof fn lemma_literal_names(names: Seq<Seq<u8>>)
    ensures
        literal_names(names).len() <= names.len(),
        forall|i: int|
            #![trigger literal_names(names)[i]]
            0 <= i < literal_names(names).len() - 1 ==> {
                &&& literal_names(names)[i] == names[i]
                &&& !has_wildcard(names[i])
            },
    decreases names.len(),
{
    if names.len() > 0 {
        lemma_literal_names(names.drop_first());
        if !has_wildcard(names[0]) {
            let rest = literal_names(names.drop_first());
            assert forall|i: int|
                #![trigger literal_names(names)[i]]
                0 <= i < literal_names(names).len() - 1 implies literal_names(names)[i] == names[i]
                && !has_wildcard(names[i]) by {
                if i > 0 {
                    assert(literal_names(names)[i] == rest[i - 1]);
                    assert(names.drop_first()[i - 1] == names[i]);
                }
            }
        }
    }
}

} // verus!
