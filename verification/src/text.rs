//! Helpers on names and comma-separated text.

use vstd::prelude::*;

verus! {

/// `str`'s `==`: two strings are equal when they hold the same characters.
pub assume_specification[ <str as PartialEq>::eq ](a: &str, b: &str) -> (r: bool)
    ensures
        r == (a@ == b@),
;

/// The characters of a string, as a vector.
pub fn chars_of(s: &str) -> (v: Vec<char>)
    ensures
        v@ == s@,
{
    let mut v: Vec<char> = Vec::new();
    for c in it: s.chars()
        invariant
            v@ == it.seq().take(it.index() as int),
            it.seq() == s@,
    {
        v.push(c);
    }
    v
}

/// Whether every character of `abbrev` occurs somewhere in `name`.
pub open spec fn abbreviates(abbrev: Seq<char>, name: Seq<char>) -> bool {
    forall|i: int| 0 <= i < abbrev.len() ==> name.contains(#[trigger] abbrev[i])
}

fn has_char(chars: &Vec<char>, c: char) -> (r: bool)
    ensures
        r == chars@.contains(c),
{
    for i in 0..chars.len()
        invariant
            forall|j: int| 0 <= j < i ==> chars@[j] != c,
    {
        if chars[i] == c {
            return true;
        }
    }
    false
}

/// Whether `abbrev` is an abbreviation of `name`: each of its characters is
/// one of the name's, whatever the order and however often it is used.
pub fn is_abbrev_match_to_string(abbrev: &str, name: &str) -> (r: bool)
    ensures
        r == abbreviates(abbrev@, name@),
{
    let wanted = chars_of(abbrev);
    let have = chars_of(name);
    for i in 0..wanted.len()
        invariant
            wanted@ == abbrev@,
            have@ == name@,
            forall|j: int| 0 <= j < i ==> name@.contains(#[trigger] abbrev@[j]),
    {
        if !has_char(&have, wanted[i]) {
            return false;
        }
    }
    true
}

/// Whether no string occurs twice; otherwise the error handed in.
pub fn is_string_vec_unique<E>(vec: &[&str], error: E) -> (r: Result<bool, E>)
    ensures
        vec.deep_view().no_duplicates() ==> r == Ok::<bool, E>(true),
        !vec.deep_view().no_duplicates() ==> r == Err::<bool, E>(error),
{
    for i in 0..vec.len()
        invariant
            forall|a: int, b: int| 0 <= a < b < i ==> vec@[a]@ != vec@[b]@,
    {
        for j in 0..i
            invariant
                i < vec.len(),
                forall|a: int, b: int| 0 <= a < b < i ==> vec@[a]@ != vec@[b]@,
                forall|a: int| 0 <= a < j ==> vec@[a]@ != vec@[i as int]@,
        {
            if *vec[j] == *vec[i] {
                assert(vec.deep_view()[j as int] == vec.deep_view()[i as int]);
                return Err(error);
            }
        }
    }
    assert(vec.deep_view().no_duplicates()) by {
        assert forall|a: int, b: int|
            0 <= a < vec.deep_view().len() && 0 <= b < vec.deep_view().len() && a != b implies vec.deep_view()[a]
            != vec.deep_view()[b] by {
            if a < b {
                assert(vec@[a]@ != vec@[b]@);
            } else {
                assert(vec@[b]@ != vec@[a]@);
            }
        }
    }
    Ok(true)
}

/// Whether there are at least two strings; otherwise the error handed in.
pub fn is_vec_len_gt_1<E>(vec: &[&str], error: E) -> (r: Result<bool, E>)
    ensures
        vec@.len() > 1 ==> r == Ok::<bool, E>(true),
        vec@.len() <= 1 ==> r == Err::<bool, E>(error),
{
    if vec.len() == 0 || vec.len() == 1 {
        Err(error)
    } else {
        Ok(true)
    }
}

/// Owned copies of the strings, in the same order.
pub fn strs_to_strings(values: Vec<&str>) -> (r: Vec<String>)
    ensures
        r.deep_view() == values.deep_view(),
{
    let mut out: Vec<String> = Vec::new();
    for i in 0..values.len()
        invariant
            out@.len() == i,
            forall|j: int| 0 <= j < i ==> out@[j]@ == values@[j]@,
    {
        out.push(values[i].to_owned());
    }
    assert(out.deep_view() =~= values.deep_view());
    out
}

/// The first index at which a value stands is the one that no earlier index
/// shares.
pub proof fn lemma_first_index<A>(s: Seq<A>, needle: A, i: int)
    requires
        0 <= i < s.len(),
        s[i] == needle,
        forall|j: int| 0 <= j < i ==> s[j] != needle,
    ensures
        s.index_of_first(needle) == Some(i),
{
    s.index_of_first_ensures(needle);
    assert(s.contains(needle));
}

/// A value that stands nowhere has no first index.
pub proof fn lemma_no_index<A>(s: Seq<A>, needle: A)
    requires
        forall|j: int| 0 <= j < s.len() ==> s[j] != needle,
    ensures
        s.index_of_first(needle) is None,
        !s.contains(needle),
{
    s.index_of_first_ensures(needle);
}

/// Where `name` first stands among `names`, if it does.
pub fn find_name(names: &Vec<String>, name: &str) -> (r: Option<usize>)
    ensures
        match r {
            Some(i) => names.deep_view().index_of_first(name@) == Some(i as int) && i
                < names.len(),
            None => names.deep_view().index_of_first(name@) is None,
        },
{
    for i in 0..names.len()
        invariant
            forall|j: int| 0 <= j < i ==> names.deep_view()[j] != name@,
    {
        if *names[i].as_str() == *name {
            proof {
                lemma_first_index(names.deep_view(), name@, i as int);
            }
            return Some(i);
        }
    }
    proof {
        lemma_no_index(names.deep_view(), name@);
    }
    None
}

/// Whether `name` is among `names`.
pub fn contains_name(names: &Vec<String>, name: &str) -> (r: bool)
    ensures
        r == names.deep_view().contains(name@),
{
    proof {
        names.deep_view().index_of_first_ensures(name@);
    }
    find_name(names, name).is_some()
}

/// A copy of the names, in the same order.
pub fn clone_names(names: &Vec<String>) -> (r: Vec<String>)
    ensures
        r.deep_view() == names.deep_view(),
{
    let mut out: Vec<String> = Vec::new();
    for i in 0..names.len()
        invariant
            out@.len() == i,
            forall|j: int| 0 <= j < i ==> out@[j]@ == names@[j]@,
    {
        out.push(names[i].clone());
    }
    assert(out.deep_view() =~= names.deep_view());
    out
}

/// The fields of a comma-separated text: what stands before the first comma,
/// between one comma and the next, and after the last. A text without a comma
/// is one field, and so is the empty text.
pub open spec fn comma_fields(text: Seq<char>) -> Seq<Seq<char>>
    decreases text.len(),
{
    if text.len() == 0 {
        seq![Seq::empty()]
    } else {
        let before = comma_fields(text.drop_last());
        if text.last() == ',' {
            before.push(Seq::empty())
        } else {
            before.drop_last().push(before.last().push(text.last()))
        }
    }
}

/// A text always has a field.
pub proof fn lemma_comma_fields_len(text: Seq<char>)
    ensures
        comma_fields(text).len() >= 1,
    decreases text.len(),
{
    if text.len() > 0 {
        lemma_comma_fields_len(text.drop_last());
    }
}

/// The fields of a comma-separated text, in their order.
pub fn split_commas(text: &str) -> (r: Vec<String>)
    ensures
        r.deep_view() == comma_fields(text@),
{
    let chars = chars_of(text);
    let mut done: Vec<String> = Vec::new();
    let mut start: usize = 0;
    proof {
        assert(text@.take(0) =~= Seq::<char>::empty());
        assert(text@.subrange(0, 0) =~= Seq::<char>::empty());
        assert(comma_fields(text@.take(0)) =~= done.deep_view().push(text@.subrange(0, 0)));
    }
    for i in 0..chars.len()
        invariant
            chars@ == text@,
            start <= i,
            comma_fields(text@.take(i as int)) == done.deep_view().push(
                text@.subrange(start as int, i as int),
            ),
    {
        proof {
            let upto = text@.take(i + 1);
            assert(upto.drop_last() =~= text@.take(i as int));
            assert(upto.last() == text@[i as int]);
        }
        let ghost before = done.deep_view();
        if chars[i] == ',' {
            done.push(text.substring_char(start, i).to_owned());
            proof {
                assert(done.deep_view() =~= before.push(text@.subrange(start as int, i as int)));
                assert(text@.subrange(i + 1, i + 1) =~= Seq::<char>::empty());
            }
            start = i + 1;
        } else {
            proof {
                let field = text@.subrange(start as int, i as int);
                assert(before.push(field).drop_last() =~= before);
                assert(field.push(text@[i as int]) =~= text@.subrange(start as int, i + 1));
            }
        }
    }
    assert(text@.take(chars.len() as int) =~= text@);
    let ghost before = done.deep_view();
    done.push(text.substring_char(start, chars.len()).to_owned());
    assert(done.deep_view() =~= before.push(text@.subrange(start as int, text@.len() as int)));
    done
}

} // verus!
