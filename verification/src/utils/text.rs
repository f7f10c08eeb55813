//! Text as sequences of characters, and the few string operations of the
//! standard library that the crate relies on.

use vstd::prelude::*;

verus! {

/// The mathematical value of a string.
pub type Text = Seq<char>;

/// `String::push` of the standard library. Taken on trust: afterwards the
/// string holds what it held, and `c` after it.
pub assume_specification[ String::push ](text: &mut String, c: char)
    ensures
        final(text)@ == old(text)@.push(c),
;

/// `==` on `str` of the standard library. Taken on trust: two string slices
/// are equal exactly when they hold the same characters.
pub assume_specification[ <str as PartialEq>::eq ](a: &str, b: &str) -> (same: bool)
    ensures
        same == (a@ == b@),
;

/// Pushing onto a vector pushes the item's view onto the vector's view.
pub proof fn lemma_deep_view_push<T: DeepView>(before: Vec<T>, after: Vec<T>, item: T)
    requires
        after@ == before@.push(item),
    ensures
        after.deep_view() == before.deep_view().push(item.deep_view()),
{
    assert(after.deep_view() =~= before.deep_view().push(item.deep_view()));
}

/// Replacing one item of a vector replaces its view in the vector's view.
pub proof fn lemma_deep_view_update<T: DeepView>(before: Vec<T>, after: Vec<T>, i: int, item: T)
    requires
        0 <= i < before@.len(),
        after@ == before@.update(i, item),
    ensures
        after.deep_view() == before.deep_view().update(i, item.deep_view()),
{
    assert(after.deep_view() =~= before.deep_view().update(i, item.deep_view()));
}

/// Removing one item of a vector removes its view from the vector's view.
pub proof fn lemma_deep_view_remove<T: DeepView>(before: Vec<T>, after: Vec<T>, i: int)
    requires
        0 <= i < before@.len(),
        after@ == before@.remove(i),
    ensures
        after.deep_view() == before.deep_view().remove(i),
{
    assert(after.deep_view() =~= before.deep_view().remove(i));
}

/// Appending a vector appends its view.
pub proof fn lemma_deep_view_append<T: DeepView>(before: Vec<T>, other: Vec<T>, after: Vec<T>)
    requires
        after@ == before@ + other@,
    ensures
        after.deep_view() == before.deep_view() + other.deep_view(),
{
    assert(after.deep_view() =~= before.deep_view() + other.deep_view());
}

/// Inserting into a vector inserts the item's view into the vector's view.
pub proof fn lemma_deep_view_insert<T: DeepView>(before: Vec<T>, after: Vec<T>, i: int, item: T)
    requires
        0 <= i <= before@.len(),
        after@ == before@.insert(i, item),
    ensures
        after.deep_view() == before.deep_view().insert(i, item.deep_view()),
{
    assert(after.deep_view() =~= before.deep_view().insert(i, item.deep_view()));
}

/// Cutting a vector short cuts its view short.
pub proof fn lemma_deep_view_take<T: DeepView>(before: Vec<T>, after: Vec<T>, n: int)
    requires
        0 <= n <= before@.len(),
        after@ == before@.subrange(0, n),
    ensures
        after.deep_view() == before.deep_view().take(n),
{
    assert(after.deep_view() =~= before.deep_view().take(n));
}

/// Whether `needle` is one of `haystack`.
pub fn contains_text(haystack: &Vec<String>, needle: &str) -> (found: bool)
    ensures
        found == haystack.deep_view().contains(needle@),
{
    let mut i: usize = 0;
    while i < haystack.len()
        invariant
            i <= haystack.len(),
            forall|j: int| 0 <= j < i ==> haystack.deep_view()[j] != needle@,
        decreases haystack.len() - i,
    {
        if *haystack[i].as_str() == *needle {
            assert(haystack.deep_view()[i as int] == needle@);
            return true;
        }
        i += 1;
    }
    false
}

/// A copy of an optional string.
pub fn copy_optional(text: &Option<String>) -> (copy: Option<String>)
    ensures
        copy.deep_view() == text.deep_view(),
{
    match text {
        Some(inner) => Some(inner.clone()),
        None => None,
    }
}

/// A copy of a list of strings.
pub fn copy_texts(texts: &Vec<String>) -> (copy: Vec<String>)
    ensures
        copy.deep_view() == texts.deep_view(),
{
    let mut copy: Vec<String> = Vec::new();
    let mut i: usize = 0;
    while i < texts.len()
        invariant
            i <= texts.len(),
            copy.deep_view() == texts.deep_view().take(i as int),
        decreases texts.len() - i,
    {
        let ghost before = copy;
        let item = texts[i].clone();
        copy.push(item);
        proof {
            lemma_deep_view_push(before, copy, item);
        }
        i += 1;
        assert(copy.deep_view() =~= texts.deep_view().take(i as int));
    }
    assert(texts.deep_view().take(texts.len() as int) =~= texts.deep_view());
    copy
}

/// The condition of being the text `text`.
pub open spec fn is_text(text: Text) -> spec_fn(Text) -> bool {
    |other: Text| other == text
}

/// The index of the first of `texts` that equals `wanted`, if any does.
pub fn find_text(texts: &Vec<String>, wanted: &str) -> (found: Option<usize>)
    ensures
        match found {
            Some(i) => crate::utils::search::first_where(texts.deep_view(), is_text(wanted@))
                == Some(i as int) && i < texts.len(),
            None => crate::utils::search::first_where(texts.deep_view(), is_text(wanted@))
                is None,
        },
{
    let mut i: usize = 0;
    while i < texts.len()
        invariant
            i <= texts.len(),
            forall|j: int| 0 <= j < i ==> !is_text(wanted@)(#[trigger] texts.deep_view()[j]),
        decreases texts.len() - i,
    {
        assert(texts.deep_view()[i as int] == texts[i as int]@);
        if *texts[i].as_str() == *wanted {
            proof {
                crate::utils::search::lemma_first_where_is(
                    texts.deep_view(),
                    is_text(wanted@),
                    i as int,
                );
            }
            return Some(i);
        }
        i += 1;
    }
    proof {
        crate::utils::search::lemma_first_where_none(texts.deep_view(), is_text(wanted@));
    }
    None
}

} // verus!
