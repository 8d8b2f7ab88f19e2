//! Text helpers: views of optional strings, substring search and
//! replacement.

use vstd::prelude::*;

verus! {

/// The characters of an optional string, where there is one.
pub open spec fn opt_text(value: Option<String>) -> Option<Seq<char>> {
    match value {
        Some(s) => Some(s@),
        None => None,
    }
}

/// Whether `needle` stands in `haystack` at position `at`.
pub open spec fn occurs_at(haystack: Seq<char>, needle: Seq<char>, at: int) -> bool {
    &&& 0 <= at
    &&& at + needle.len() <= haystack.len()
    &&& haystack.subrange(at, at + needle.len()) == needle
}

/// Whether `needle` stands somewhere in `haystack`.
pub open spec fn contains_text(haystack: Seq<char>, needle: Seq<char>) -> bool {
    exists|at: int| occurs_at(haystack, needle, at)
}

/// The text with each occurrence of `from` replaced by `to`, found from
/// left to right without overlap. An empty `from` occurs nowhere.
pub open spec fn replaced(text: Seq<char>, from: Seq<char>, to: Seq<char>) -> Seq<char>
    decreases text.len(),
{
    if from.len() == 0 || text.len() < from.len() {
        text
    } else if occurs_at(text, from, 0) {
        to + replaced(text.skip(from.len() as int), from, to)
    } else {
        seq![text[0]] + replaced(text.skip(1), from, to)
    }
}

/// Copies an optional string.
pub fn copy_opt_text(value: &Option<String>) -> (copy: Option<String>)
    ensures
        copy == *value,
{
    match value {
        Some(s) => Some(s.clone()),
        None => None,
    }
}

/// The characters of a string, in order.
pub fn chars_of(text: &str) -> (chars: Vec<char>)
    ensures
        chars@ == text@,
{
    broadcast use vstd::string::group_string_axioms;

    let mut chars: Vec<char> = Vec::new();
    for c in it: text.chars()
        invariant
            it.seq() == text@,
            chars@ == text@.take(it.index() as int),
    {
        assert(text@.take(it.index() + 1) =~= text@.take(it.index() as int).push(c));
        chars.push(c);
    }
    assert(text@.take(text@.len() as int) =~= text@);
    chars
}

/// Tests whether `needle` stands in `haystack` at `at`.
pub fn matches_at(haystack: &Vec<char>, needle: &Vec<char>, at: usize) -> (found: bool)
    ensures
        found == occurs_at(haystack@, needle@, at as int),
{
    let width = needle.len();
    if at > haystack.len() || width > haystack.len() - at {
        return false;
    }
    let mut k: usize = 0;
    while k < width
        invariant
            k <= width,
            width == needle@.len(),
            at + width <= haystack.len(),
            forall|j: int| 0 <= j < k ==> haystack@[at + j] == needle@[j],
        decreases width - k,
    {
        if haystack[at + k] != needle[k] {
            assert(haystack@.subrange(at as int, at + width)[k as int] != needle@[k as int]);
            return false;
        }
        k += 1;
    }
    assert(haystack@.subrange(at as int, at + width) =~= needle@);
    true
}

/// Tests whether `needle` stands somewhere in `haystack`. The empty text
/// stands in every text.
pub fn text_contains(haystack: &str, needle: &str) -> (found: bool)
    ensures
        found == contains_text(haystack@, needle@),
{
    let hay = chars_of(haystack);
    let pin = chars_of(needle);
    if pin.len() == 0 {
        assert(occurs_at(hay@, pin@, 0)) by {
            assert(hay@.subrange(0, 0) =~= pin@);
        }
        return true;
    }
    if pin.len() > hay.len() {
        return false;
    }
    let last = hay.len() - pin.len();
    let mut at: usize = 0;
    while at <= last
        invariant
            at <= last + 1,
            last + pin.len() == hay.len(),
            pin.len() > 0,
            hay@ == haystack@,
            pin@ == needle@,
            forall|k: int| 0 <= k < at ==> !occurs_at(hay@, pin@, k),
        decreases last + 1 - at,
    {
        if matches_at(&hay, &pin, at) {
            return true;
        }
        at += 1;
    }
    false
}

/// Tests whether two texts are the same.
pub fn same_text(a: &str, b: &str) -> (same: bool)
    ensures
        same == (a@ == b@),
{
    let left = chars_of(a);
    let right = chars_of(b);
    if left.len() != right.len() {
        return false;
    }
    let same = matches_at(&left, &right, 0);
    assert(left@.subrange(0, right@.len() as int) =~= left@);
    same
}

/// Replaces each occurrence of `from` in `text` by `to`, from left to
/// right without overlap. An empty `from` replaces nothing.
pub fn replace_all(text: &str, from: &str, to: &str) -> (result: String)
    ensures
        result@ == replaced(text@, from@, to@),
{
    let hay = chars_of(text);
    let pin = chars_of(from);
    let width = pin.len();
    let length = hay.len();
    if width == 0 || length < width {
        return text.to_owned();
    }
    let mut result = String::new();
    let mut kept: usize = 0;
    let mut at: usize = 0;
    assert(result@ + text@.subrange(0, 0) + replaced(text@.skip(0), from@, to@) =~= replaced(
        text@,
        from@,
        to@,
    )) by {
        assert(text@.skip(0) =~= text@);
    }
    while at <= length - width
        invariant
            kept <= at <= length,
            width > 0,
            width <= length,
            hay@ == text@,
            pin@ == from@,
            width == pin.len(),
            length == hay.len(),
            result@ + text@.subrange(kept as int, at as int) + replaced(
                text@.skip(at as int),
                from@,
                to@,
            ) == replaced(text@, from@, to@),
        decreases length - at,
    {
        let ghost rest = text@.skip(at as int);
        let ghost pending = text@.subrange(kept as int, at as int);
        assert(rest.len() >= width);
        if matches_at(&hay, &pin, at) {
            assert(occurs_at(rest, from@, 0)) by {
                assert(rest.subrange(0, width as int) =~= hay@.subrange(at as int, at + width));
            }
            assert(rest.skip(width as int) =~= text@.skip(at + width));
            let ghost before = result@;
            result.append(text.substring_char(kept, at));
            result.append(to);
            at += width;
            kept = at;
            assert(result@ + text@.subrange(kept as int, at as int) + replaced(
                text@.skip(at as int),
                from@,
                to@,
            ) =~= before + pending + (to@ + replaced(rest.skip(width as int), from@, to@)));
        } else {
            assert(!occurs_at(rest, from@, 0)) by {
                assert(rest.subrange(0, width as int) =~= hay@.subrange(at as int, at + width));
            }
            assert(rest.skip(1) =~= text@.skip(at + 1));
            assert(rest[0] == text@[at as int]);
            at += 1;
            assert(text@.subrange(kept as int, at as int) =~= pending + seq![rest[0]]);
            assert(result@ + text@.subrange(kept as int, at as int) + replaced(
                text@.skip(at as int),
                from@,
                to@,
            ) =~= result@ + pending + (seq![rest[0]] + replaced(rest.skip(1), from@, to@)));
        }
    }
    assert(replaced(text@.skip(at as int), from@, to@) == text@.skip(at as int));
    assert(text@.subrange(kept as int, at as int) + text@.skip(at as int) =~= text@.subrange(
        kept as int,
        length as int,
    ));
    let ghost before = result@;
    result.append(text.substring_char(kept, length));
    assert(result@ =~= before + text@.subrange(kept as int, at as int) + text@.skip(at as int));
    result
}

} // verus!
