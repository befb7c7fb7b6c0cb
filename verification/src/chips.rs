//! Tag input: typed values become removable tags.
//!
//! - Enter or a comma turns what was typed into a tag; the same tag (without
//!   regard to case and Turkish letters) is not added twice.
//! - Backspace in an empty field removes the last tag; a tag's × button
//!   removes it.
//! - With suggestions, the first one that starts with what was typed shows
//!   beside the field; Tab completes it.
use vstd::prelude::*;
use vstd::string::StrSliceExecFns;

use crate::text::{fold, folded, same_chars, starts_with, trim, trim_start, trimmed, trimmed_start};

verus! {

/// The tags as texts.
pub open spec fn texts(chips: Seq<String>) -> Seq<Seq<char>> {
    chips.map_values(|s: String| s@)
}

/// Whether a tag like `chip` is already there: the same text, once trimmed,
/// without regard to case and Turkish letters.
pub open spec fn has_chip(chips: Seq<Seq<char>>, chip: Seq<char>) -> bool {
    exists|i: int| 0 <= i < chips.len() && fold(#[trigger] chips[i]) == fold(trim(chip))
}

/// The tags after adding what was typed: trimmed, and only if it is not
/// empty and not there yet.
pub open spec fn committed(chips: Seq<Seq<char>>, typed: Seq<char>) -> Option<Seq<Seq<char>>> {
    let t = trim(typed);
    if t.len() > 0 && !has_chip(chips, t) {
        Some(chips.push(t))
    } else {
        None
    }
}

/// Whether `s` starts with `prefix`.
pub open spec fn has_prefix(s: Seq<char>, prefix: Seq<char>) -> bool {
    prefix.len() <= s.len() && s.subrange(0, prefix.len() as int) == prefix
}

/// A suggestion fits what was typed if it starts with it, is more than it
/// and is not a tag yet.
pub open spec fn fits(suggestion: Seq<char>, chips: Seq<Seq<char>>, typed: Seq<char>) -> bool {
    let t = fold(trim(typed));
    &&& has_prefix(fold(suggestion), t)
    &&& fold(suggestion) != t
    &&& !has_chip(chips, suggestion)
}

/// The first suggestion from `i` on that fits.
pub open spec fn first_fit(suggestions: Seq<Seq<char>>, chips: Seq<Seq<char>>, typed: Seq<char>, i: int) -> Option<int>
    decreases suggestions.len() - i,
{
    if i < 0 || i >= suggestions.len() {
        None
    } else if fits(suggestions[i], chips, typed) {
        Some(i)
    } else {
        first_fit(suggestions, chips, typed, i + 1)
    }
}

/// The first suggestion that fits, if what was typed is not empty.
pub open spec fn suggested(suggestions: Seq<Seq<char>>, chips: Seq<Seq<char>>, typed: Seq<char>) -> Option<int> {
    if trim(typed).len() == 0 {
        None
    } else {
        first_fit(suggestions, chips, typed, 0)
    }
}

/// Whether some tag is the same as `chip`, comparing the texts as they
/// are.
fn find_chip(chips: &Vec<String>, key: &Vec<char>) -> (r: bool)
    ensures
        r == exists|i: int| 0 <= i < chips@.len() && fold(#[trigger] chips@[i]@) == key@,
{
    let mut i: usize = 0;
    while i < chips.len()
        invariant
            0 <= i <= chips@.len(),
            forall|j: int| 0 <= j < i ==> fold(#[trigger] chips@[j]@) != key@,
        decreases chips@.len() - i,
    {
        let f = folded(chips[i].as_str());
        if same_chars(&f, key) {
            return true;
        }
        i = i + 1;
    }
    false
}

/// Whether a tag like `chip` is already there.
pub fn contains(chips: &Vec<String>, chip: &str) -> (r: bool)
    ensures
        r == has_chip(texts(chips@), chip@),
{
    let key = folded(trimmed(chip));
    let r = find_chip(chips, &key);
    proof {
        let t = texts(chips@);
        if r {
            let i = choose|i: int| 0 <= i < chips@.len() && fold(#[trigger] chips@[i]@) == key@;
            assert(t[i] == chips@[i]@);
        } else {
            assert forall|i: int| 0 <= i < t.len() implies fold(#[trigger] t[i]) != fold(trim(chip@)) by {
                assert(t[i] == chips@[i]@);
            }
        }
    }
    r
}

/// Adds what was typed as a tag; nothing if it is empty or already there.
pub fn commit(chips: &Vec<String>, typed: &str) -> (r: Option<Vec<String>>)
    ensures
        match committed(texts(chips@), typed@) {
            Some(c) => r is Some && texts(r->0@) == c,
            None => r is None,
        },
{
    let t = trimmed(typed);
    if t.unicode_len() == 0 || contains(chips, t) {
        proof {
            lemma_trim_idempotent(typed@);
        }
        return None;
    }
    proof {
        lemma_trim_idempotent(typed@);
    }
    let mut next: Vec<String> = Vec::new();
    let mut i: usize = 0;
    while i < chips.len()
        invariant
            0 <= i <= chips@.len(),
            texts(next@) == texts(chips@.subrange(0, i as int)),
        decreases chips@.len() - i,
    {
        let copy = chips[i].clone();
        let ghost before = next@;
        next.push(copy);
        proof {
            assert(texts(next@) =~= texts(before).push(chips@[i as int]@));
            assert(texts(next@) =~= texts(chips@.subrange(0, i + 1)));
        }
        i = i + 1;
    }
    next.push(t.to_owned());
    proof {
        assert(chips@.subrange(0, chips@.len() as int) =~= chips@);
        assert(texts(next@) =~= texts(chips@).push(trim(typed@)));
    }
    Some(next)
}

/// Trimming twice is trimming once.
pub proof fn lemma_trim_idempotent(s: Seq<char>)
    ensures
        trim(trim(s)) == trim(s),
{
    lemma_trim_start_of_trimmed(s);
}

proof fn lemma_trim_start_end(s: Seq<char>)
    requires
        s.len() == 0 || !crate::text::is_white(s[0]),
    ensures
        trim_start(crate::text::trim_end(s)) == crate::text::trim_end(s),
    decreases s.len(),
{
    if s.len() > 0 && crate::text::is_white(s.last()) {
        if s.len() > 1 {
            assert(s.drop_last()[0] == s[0]);
        }
        lemma_trim_start_end(s.drop_last());
    }
}

proof fn lemma_trim_start_fixed(s: Seq<char>)
    ensures
        trim_start(s).len() == 0 || !crate::text::is_white(trim_start(s)[0]),
        trim_start(trim_start(s)) == trim_start(s),
    decreases s.len(),
{
    if s.len() > 0 && crate::text::is_white(s[0]) {
        lemma_trim_start_fixed(s.drop_first());
    }
}

proof fn lemma_trim_end_fixed(s: Seq<char>)
    ensures
        crate::text::trim_end(crate::text::trim_end(s)) == crate::text::trim_end(s),
    decreases s.len(),
{
    if s.len() > 0 && crate::text::is_white(s.last()) {
        lemma_trim_end_fixed(s.drop_last());
    }
}

proof fn lemma_trim_start_of_trimmed(s: Seq<char>)
    ensures
        trim(trim(s)) == trim(s),
{
    let a = trim_start(s);
    lemma_trim_start_fixed(s);
    lemma_trim_start_end(a);
    lemma_trim_end_fixed(a);
}

/// The first suggestion that starts with what was typed (without regard to
/// case and Turkish letters), is more than it and is not a tag yet; none if
/// nothing was typed.
pub fn suggestion<'s>(suggestions: &'s Vec<String>, chips: &Vec<String>, typed: &str) -> (r: Option<&'s str>)
    ensures
        match suggested(texts(suggestions@), texts(chips@), typed@) {
            Some(i) => r is Some && r->0@ == suggestions@[i]@,
            None => r is None,
        },
{
    let t = folded(trimmed(typed));
    if t.len() == 0 {
        return None;
    }
    let ghost s = texts(suggestions@);
    let ghost c = texts(chips@);
    let mut i: usize = 0;
    while i < suggestions.len()
        invariant
            0 <= i <= suggestions@.len(),
            s == texts(suggestions@),
            c == texts(chips@),
            t@ == fold(trim(typed@)),
            t@.len() > 0,
            first_fit(s, c, typed@, 0) == first_fit(s, c, typed@, i as int),
        decreases suggestions@.len() - i,
    {
        let candidate = suggestions[i].as_str();
        let f = folded(candidate);
        proof {
            assert(s[i as int] == suggestions@[i as int]@);
        }
        if starts_with(&f, &t) && !same_chars(&f, &t) && !contains(chips, candidate) {
            proof {
                assert(fits(s[i as int], c, typed@));
                assert(trim(typed@).len() == t@.len());
                assert(trim(typed@).len() != 0);
                assert(first_fit(s, c, typed@, i as int) == Some(i as int));
                assert(suggested(s, c, typed@) == Some(i as int));
                assert(candidate@ == suggestions@[i as int]@);
            }
            return Some(candidate);
        }
        i = i + 1;
    }
    None
}

/// The tags without the one at `index` (its × button was pressed).
pub fn without(chips: &Vec<String>, index: usize) -> (r: Vec<String>)
    requires
        index < chips@.len(),
    ensures
        texts(r@) == texts(chips@).remove(index as int),
{
    let mut r: Vec<String> = Vec::new();
    let mut i: usize = 0;
    while i < chips.len()
        invariant
            0 <= i <= chips@.len(),
            index < chips@.len(),
            i <= index ==> texts(r@) == texts(chips@.subrange(0, i as int)),
            i > index ==> texts(r@) == texts(chips@.subrange(0, i as int)).remove(index as int),
        decreases chips@.len() - i,
    {
        let ghost before = r@;
        if i != index {
            r.push(chips[i].clone());
        }
        proof {
            let p = texts(chips@.subrange(0, i as int));
            assert(texts(chips@.subrange(0, i + 1)) =~= p.push(chips@[i as int]@));
            if i != index {
                assert(texts(r@) =~= texts(before).push(chips@[i as int]@));
            }
            if i == index {
                assert(p.push(chips@[i as int]@).remove(index as int) =~= p);
            } else if i > index {
                assert(p.push(chips@[i as int]@).remove(index as int) =~= p.remove(index as int).push(chips@[i as int]@));
            }
        }
        i = i + 1;
    }
    proof {
        assert(chips@.subrange(0, chips@.len() as int) =~= chips@);
    }
    r
}

/// The parts of `s[start..]` between commas, scanning from `i`.
pub open spec fn split_from(s: Seq<char>, start: int, i: int) -> Seq<Seq<char>>
    decreases s.len() - i,
{
    if i >= s.len() {
        seq![s.subrange(start, s.len() as int)]
    } else if s[i] == ',' {
        seq![s.subrange(start, i)] + split_from(s, i + 1, i + 1)
    } else {
        split_from(s, start, i + 1)
    }
}

/// The parts of a text between commas.
pub open spec fn split_commas(s: Seq<char>) -> Seq<Seq<char>> {
    split_from(s, 0, 0)
}

/// The tags after adding a typed part: trimmed, if not empty and not there.
pub open spec fn add_part(chips: Seq<Seq<char>>, part: Seq<char>) -> Seq<Seq<char>> {
    match committed(chips, part) {
        Some(c) => c,
        None => chips,
    }
}

/// The tags after adding the parts in order.
pub open spec fn add_parts(chips: Seq<Seq<char>>, parts: Seq<Seq<char>>) -> Seq<Seq<char>>
    decreases parts.len(),
{
    if parts.len() == 0 {
        chips
    } else {
        add_part(add_parts(chips, parts.drop_last()), parts.last())
    }
}

/// The last comma among the first `n` characters.
pub open spec fn last_comma(s: Seq<char>, n: int) -> Option<int>
    decreases n,
{
    if n <= 0 {
        None
    } else if s[n - 1] == ',' {
        Some(n - 1)
    } else {
        last_comma(s, n - 1)
    }
}

/// What typing `input` does: if it holds a comma, each part before the last
/// comma becomes a tag (if not empty and not there yet), the tags are passed
/// on if they changed, and what follows the last comma stays in the field
/// without its leading white space; otherwise the input stays in the field.
pub open spec fn typed_spec(chips: Seq<Seq<char>>, input: Seq<char>) -> (Option<Seq<Seq<char>>>, Seq<char>) {
    match last_comma(input, input.len() as int) {
        None => (None, input),
        Some(k) => {
            let next = add_parts(chips, split_commas(input.subrange(0, k)));
            (
                if next.len() != chips.len() {
                    Some(next)
                } else {
                    None
                },
                trim_start(input.subrange(k + 1, input.len() as int)),
            )
        },
    }
}

proof fn lemma_add_parts_grows(chips: Seq<Seq<char>>, parts: Seq<Seq<char>>)
    ensures
        add_parts(chips, parts).len() >= chips.len(),
        add_parts(chips, parts).subrange(0, chips.len() as int) == chips,
    decreases parts.len(),
{
    if parts.len() > 0 {
        lemma_add_parts_grows(chips, parts.drop_last());
        let a = add_parts(chips, parts.drop_last());
        assert(add_parts(chips, parts).subrange(0, chips.len() as int) =~= a.subrange(0, chips.len() as int));
    }
}

/// Adds a typed part as a tag, trimmed, if it is not empty and not there.
fn add_typed_part(current: &mut Vec<String>, part: &str)
    ensures
        texts(final(current)@) == add_part(texts(old(current)@), part@),
{
    let ghost prev = texts(current@);
    if !contains(current, part) {
        let t = trimmed(part);
        if t.unicode_len() > 0 {
            let owned = t.to_owned();
            current.push(owned);
            proof {
                assert(texts(current@) =~= prev.push(trim(part@)));
            }
        }
    }
    proof {
        lemma_trim_idempotent(part@);
    }
}

/// Applies what was typed in the field: returns the tags to pass on, if
/// they changed, and the text that stays in the field.
pub fn typed(chips: &Vec<String>, input: &str) -> (r: (Option<Vec<String>>, String))
    ensures
        r.1@ == typed_spec(texts(chips@), input@).1,
        match typed_spec(texts(chips@), input@).0 {
            Some(c) => r.0 is Some && texts(r.0->0@) == c,
            None => r.0 is None,
        },
{
    let n = input.unicode_len();
    let mut k = n;
    while k > 0 && input.get_char(k - 1) != ','
        invariant
            n == input@.len(),
            0 <= k <= n,
            last_comma(input@, n as int) == last_comma(input@, k as int),
        decreases k,
    {
        k = k - 1;
    }
    if k == 0 {
        return (None, input.to_owned());
    }
    let comma = k - 1;
    let done = input.substring_char(0, comma);
    let ghost d = done@;
    let mut current: Vec<String> = Vec::new();
    let mut c: usize = 0;
    while c < chips.len()
        invariant
            0 <= c <= chips@.len(),
            texts(current@) == texts(chips@.subrange(0, c as int)),
        decreases chips@.len() - c,
    {
        let copy = chips[c].clone();
        let ghost before = current@;
        current.push(copy);
        proof {
            assert(texts(current@) =~= texts(before).push(chips@[c as int]@));
            assert(texts(chips@.subrange(0, c + 1)) =~= texts(chips@.subrange(0, c as int)).push(
                chips@[c as int]@,
            ));
        }
        c = c + 1;
    }
    proof {
        assert(chips@.subrange(0, chips@.len() as int) =~= chips@);
    }
    let ghost mut parts: Seq<Seq<char>> = Seq::empty();
    let mut start: usize = 0;
    let mut i: usize = 0;
    while i < comma
        invariant
            d == done@,
            d.len() == comma,
            0 <= start <= i <= comma,
            split_commas(d) == parts + split_from(d, start as int, i as int),
            texts(current@) == add_parts(texts(chips@), parts),
        decreases comma - i,
    {
        if done.get_char(i) == ',' {
            let part = done.substring_char(start, i);
            let ghost prev = texts(current@);
            add_typed_part(&mut current, part);
            proof {
                assert(split_from(d, start as int, i as int) == seq![d.subrange(start as int, i as int)]
                    + split_from(d, i + 1, i + 1));
                assert(split_commas(d) =~= parts.push(part@) + split_from(d, i + 1, i + 1));
                assert(parts.push(part@).drop_last() =~= parts);
                parts = parts.push(part@);
            }
            start = i + 1;
        } else {
            proof {
                assert(split_from(d, start as int, i as int) == split_from(d, start as int, i + 1));
            }
        }
        i = i + 1;
    }
    let part = done.substring_char(start, comma);
    add_typed_part(&mut current, part);
    proof {
        assert(split_from(d, start as int, comma as int) == seq![d.subrange(start as int, comma as int)]);
        assert(split_commas(d) =~= parts.push(part@));
        assert(parts.push(part@).drop_last() =~= parts);
        parts = parts.push(part@);
        assert(parts == split_commas(d));
        lemma_add_parts_grows(texts(chips@), parts);
        assert(d == input@.subrange(0, comma as int));
    }
    let rest = trimmed_start(input.substring_char(k, n));
    let publish = if current.len() != chips.len() {
        Some(current)
    } else {
        None
    };
    (publish, rest.to_owned())
}

/// Backspace in an empty field removes the last tag: the tags to pass on,
/// if any.
pub fn backspace(chips: &Vec<String>, buffer: &str) -> (r: Option<Vec<String>>)
    ensures
        buffer@.len() == 0 && chips@.len() > 0 ==> r is Some && texts(r->0@) == texts(chips@).drop_last(),
        !(buffer@.len() == 0 && chips@.len() > 0) ==> r is None,
{
    if buffer.unicode_len() == 0 && chips.len() > 0 {
        Some(without(chips, chips.len() - 1))
    } else {
        None
    }
}

/// Typing the same tag again does not add it: committing a tag twice gives
/// the tags after the first commit.
pub proof fn law_added_once(chips: Seq<Seq<char>>, typed: Seq<char>)
    requires
        committed(chips, typed) is Some,
    ensures
        committed(committed(chips, typed)->0, typed) is None,
        has_chip(committed(chips, typed)->0, typed),
{
    let c = committed(chips, typed)->0;
    let t = trim(typed);
    assert(c[c.len() - 1] == t);
    lemma_trim_idempotent(typed);
    assert(fold(c[c.len() - 1]) == fold(trim(typed)));
}

/// No two tags are the same without regard to case and Turkish letters.
pub open spec fn distinct_chips(chips: Seq<Seq<char>>) -> bool {
    forall|i: int, j: int|
        0 <= i < j < chips.len() ==> fold(#[trigger] chips[i]) != fold(#[trigger] chips[j])
}

proof fn lemma_committed_distinct(chips: Seq<Seq<char>>, typed: Seq<char>)
    requires
        distinct_chips(chips),
    ensures
        distinct_chips(add_part(chips, typed)),
{
    lemma_trim_idempotent(typed);
    if let Some(c) = committed(chips, typed) {
        let t = trim(typed);
        assert forall|i: int, j: int| 0 <= i < j < c.len() implies fold(#[trigger] c[i]) != fold(#[trigger] c[j]) by {
            if j == chips.len() {
                assert(c[j] == t);
                assert(c[i] == chips[i]);
                if fold(chips[i]) == fold(trim(t)) {
                    assert(has_chip(chips, t));
                }
            } else {
                assert(c[i] == chips[i] && c[j] == chips[j]);
            }
        }
    }
}

proof fn lemma_add_parts_distinct(chips: Seq<Seq<char>>, parts: Seq<Seq<char>>)
    requires
        distinct_chips(chips),
    ensures
        distinct_chips(add_parts(chips, parts)),
    decreases parts.len(),
{
    if parts.len() > 0 {
        lemma_add_parts_distinct(chips, parts.drop_last());
        lemma_committed_distinct(add_parts(chips, parts.drop_last()), parts.last());
    }
}

/// No list of tags that the tag input passes on holds two tags that are the
/// same without regard to case and Turkish letters, when the list it
/// started from did not: not after a commit, not after typing a comma, not
/// after backspace and not after removing a tag with its × button.
pub proof fn law_published_chips_stay_distinct(
    chips: Seq<Seq<char>>,
    typed: Seq<char>,
    input: Seq<char>,
    index: int,
)
    requires
        distinct_chips(chips),
    ensures
        committed(chips, typed) matches Some(c) ==> distinct_chips(c),
        typed_spec(chips, input).0 matches Some(c) ==> distinct_chips(c),
        chips.len() > 0 ==> distinct_chips(chips.drop_last()),
        0 <= index < chips.len() ==> distinct_chips(chips.remove(index)),
{
    lemma_committed_distinct(chips, typed);
    if let Some(k) = last_comma(input, input.len() as int) {
        lemma_add_parts_distinct(chips, split_commas(input.subrange(0, k)));
    }
    if chips.len() > 0 {
        let d = chips.drop_last();
        assert forall|i: int, j: int| 0 <= i < j < d.len() implies fold(#[trigger] d[i]) != fold(#[trigger] d[j]) by {
            assert(d[i] == chips[i] && d[j] == chips[j]);
        }
    }
    if 0 <= index < chips.len() {
        let r = chips.remove(index);
        assert forall|i: int, j: int| 0 <= i < j < r.len() implies fold(#[trigger] r[i]) != fold(#[trigger] r[j]) by {
            let a = if i < index { i } else { i + 1 };
            let b = if j < index { j } else { j + 1 };
            assert(r[i] == chips[a] && r[j] == chips[b]);
        }
    }
}

proof fn lemma_first_fit(suggestions: Seq<Seq<char>>, chips: Seq<Seq<char>>, typed: Seq<char>, i: int)
    requires
        0 <= i,
    ensures
        first_fit(suggestions, chips, typed, i) matches Some(k) ==> i <= k < suggestions.len() && fits(
            suggestions[k],
            chips,
            typed,
        ) && forall|j: int| i <= j < k ==> !fits(#[trigger] suggestions[j], chips, typed),
        first_fit(suggestions, chips, typed, i) is None ==> forall|j: int|
            i <= j < suggestions.len() ==> !fits(#[trigger] suggestions[j], chips, typed),
    decreases suggestions.len() - i,
{
    if i < suggestions.len() && !fits(suggestions[i], chips, typed) {
        lemma_first_fit(suggestions, chips, typed, i + 1);
    }
}

/// The suggestion shown is the first that fits: it starts with what was
/// typed (without regard to case and Turkish letters), is more than it and
/// is not a tag yet, and no earlier suggestion does so. No suggestion shows
/// only when nothing was typed or none fits.
pub proof fn law_first_fitting_suggestion(suggestions: Seq<Seq<char>>, chips: Seq<Seq<char>>, typed: Seq<char>)
    ensures
        suggested(suggestions, chips, typed) matches Some(i) ==> {
            &&& 0 <= i < suggestions.len()
            &&& trim(typed).len() > 0
            &&& has_prefix(fold(suggestions[i]), fold(trim(typed)))
            &&& fold(suggestions[i]) != fold(trim(typed))
            &&& !has_chip(chips, suggestions[i])
            &&& forall|j: int| 0 <= j < i ==> !fits(#[trigger] suggestions[j], chips, typed)
        },
        suggested(suggestions, chips, typed) is None ==> trim(typed).len() == 0 || forall|j: int|
            0 <= j < suggestions.len() ==> !fits(#[trigger] suggestions[j], chips, typed),
{
    lemma_first_fit(suggestions, chips, typed, 0);
}

} // verus!
