//! Capture references in a replacement template.
//!
//! A template names what a capture group matched with `$name` or `${name}`;
//! `$$` stands for a dollar sign. A name made of digits is the number of a
//! group, any other name is looked up among the names that the pattern gives
//! its groups. A template that names a group that the pattern does not have
//! is turned down before any matching is done.

use crate::engine::names_of;
use vstd::prelude::*;

verus! {

/// A template names a capture group that the pattern does not have.
#[derive(Clone, Copy, Debug, PartialEq, Eq, Structural)]
pub struct InvalidReplaceCapture {
    /// Offset of the reference's dollar sign in the template.
    pub start: usize,
    /// Offset just past the reference.
    pub end: usize,
}

/// The bytes that an unbraced name is made of: `[0-9A-Za-z_]`.
pub open spec fn is_name_byte(b: u8) -> bool {
    (0x30 <= b <= 0x39) || (0x41 <= b <= 0x5a) || (0x61 <= b <= 0x7a) || b == 0x5f
}

/// Where the longest run of name bytes that starts at `i` ends.
pub open spec fn name_end(template: Seq<u8>, i: int) -> int
    decreases template.len() - i,
{
    if 0 <= i < template.len() && is_name_byte(template[i]) {
        name_end(template, i + 1)
    } else {
        i
    }
}

/// Where the first closing brace at or after `i` stands; the template's
/// length if there is none.
pub open spec fn brace_end(template: Seq<u8>, i: int) -> int
    decreases template.len() - i,
{
    if 0 <= i < template.len() && template[i] != 0x7d {
        brace_end(template, i + 1)
    } else {
        i
    }
}

/// The reference that the dollar sign at `i` opens, as the offsets at which
/// its name starts, its name ends and the reference itself ends; `None` if
/// the dollar sign opens no reference. In `${name}` the name runs up to the
/// first closing brace and may hold any other byte; in `$name` it is the
/// longest run of name bytes and not empty.
pub open spec fn reference_at(template: Seq<u8>, i: int) -> Option<(int, int, int)> {
    if i + 1 >= template.len() {
        None
    } else if template[i + 1] == 0x7b {
        let close = brace_end(template, i + 2);
        if close < template.len() {
            Some((i + 2, close, close + 1))
        } else {
            None
        }
    } else {
        let stop = name_end(template, i + 1);
        if stop > i + 1 {
            Some((i + 1, stop, stop))
        } else {
            None
        }
    }
}

/// Whether a name is a group's number: one or more decimal digits.
pub open spec fn is_number(name: Seq<u8>) -> bool {
    name.len() > 0 && forall|k: int| 0 <= k < name.len() ==> 0x30 <= #[trigger] name[k] <= 0x39
}

/// The number that decimal digits spell.
pub open spec fn number_value(digits: Seq<u8>) -> int
    decreases digits.len(),
{
    if digits.len() == 0 {
        0
    } else {
        number_value(digits.drop_last()) * 10 + (digits.last() - 0x30)
    }
}

/// Whether a pattern whose groups have these names has the group that `name`
/// refers to: by number if the name is one, else by name.
pub open spec fn satisfiable(name: Seq<u8>, groups: Seq<Option<Seq<u8>>>) -> bool {
    if is_number(name) {
        number_value(name) < groups.len()
    } else {
        groups.contains(Some(name))
    }
}

/// The first reference at or after offset `i` that the pattern cannot
/// satisfy, by the offsets of its start and end; `None` if every reference
/// from there on names a group that the pattern has.
pub open spec fn first_unsatisfied(
    template: Seq<u8>,
    groups: Seq<Option<Seq<u8>>>,
    i: int,
) -> Option<(int, int)>
    decreases template.len() - i,
    via first_unsatisfied_decreases
{
    if i < 0 || i >= template.len() {
        None
    } else if template[i] != 0x24 {
        first_unsatisfied(template, groups, i + 1)
    } else if i + 1 < template.len() && template[i + 1] == 0x24 {
        first_unsatisfied(template, groups, i + 2)
    } else {
        match reference_at(template, i) {
            None => first_unsatisfied(template, groups, i + 1),
            Some((from, to, end)) => if satisfiable(template.subrange(from, to), groups) {
                first_unsatisfied(template, groups, end)
            } else {
                Some((i, end))
            },
        }
    }
}

#[via_fn]
proof fn first_unsatisfied_decreases(template: Seq<u8>, groups: Seq<Option<Seq<u8>>>, i: int) {
    if 0 <= i < template.len() {
        lemma_reference_bounds(template, i);
    }
}

/// Whether every reference in the template names a group that the pattern
/// has.
pub open spec fn template_satisfied(template: Seq<u8>, groups: Seq<Option<Seq<u8>>>) -> bool {
    first_unsatisfied(template, groups, 0) is None
}

/// A run of name bytes ends at or after its start and inside the template.
pub proof fn lemma_name_end_bounds(template: Seq<u8>, i: int)
    requires
        0 <= i <= template.len(),
    ensures
        i <= name_end(template, i) <= template.len(),
        forall|k: int| i <= k < name_end(template, i) ==> is_name_byte(#[trigger] template[k]),
        name_end(template, i) < template.len() ==> !is_name_byte(
            template[name_end(template, i)],
        ),
    decreases template.len() - i,
{
    if i < template.len() && is_name_byte(template[i]) {
        lemma_name_end_bounds(template, i + 1);
    }
}

/// The search for a closing brace ends at or after its start and inside the
/// template, at a brace if it ends before the template does.
pub proof fn lemma_brace_end_bounds(template: Seq<u8>, i: int)
    requires
        0 <= i <= template.len(),
    ensures
        i <= brace_end(template, i) <= template.len(),
        forall|k: int| i <= k < brace_end(template, i) ==> #[trigger] template[k] != 0x7d,
        brace_end(template, i) < template.len() ==> template[brace_end(template, i)] == 0x7d,
    decreases template.len() - i,
{
    if i < template.len() && template[i] != 0x7d {
        lemma_brace_end_bounds(template, i + 1);
    }
}

/// A reference lies inside the template, after its dollar sign.
pub proof fn lemma_reference_bounds(template: Seq<u8>, i: int)
    requires
        0 <= i < template.len(),
    ensures
        match reference_at(template, i) {
            Some((from, to, end)) => i < from <= to <= end <= template.len(),
            None => true,
        },
{
    if i + 1 < template.len() {
        if template[i + 1] == 0x7b {
            lemma_brace_end_bounds(template, i + 2);
        } else {
            lemma_name_end_bounds(template, i + 1);
        }
    }
}

/// A number in decimal is at least the number that its leading digits spell.
pub proof fn lemma_number_value_grows(digits: Seq<u8>, n: int)
    requires
        is_number(digits),
        0 <= n <= digits.len(),
    ensures
        0 <= number_value(digits.take(n)) <= number_value(digits),
    decreases digits.len() - n,
{
    if n == digits.len() {
        assert(digits.take(n) =~= digits);
        lemma_number_value_nonnegative(digits);
    } else {
        lemma_number_value_grows(digits, n + 1);
        let longer = digits.take(n + 1);
        assert(longer.drop_last() =~= digits.take(n));
        assert(longer.last() == digits[n]);
        lemma_number_value_nonnegative(digits.take(n));
    }
}

proof fn lemma_number_value_nonnegative(digits: Seq<u8>)
    requires
        forall|k: int| 0 <= k < digits.len() ==> 0x30 <= #[trigger] digits[k] <= 0x39,
    ensures
        0 <= number_value(digits),
    decreases digits.len(),
{
    if digits.len() > 0 {
        lemma_number_value_nonnegative(digits.drop_last());
    }
}

/// Finds where the run of name bytes that starts at `i` ends.
fn scan_name(template: &[u8], i: usize) -> (stop: usize)
    requires
        i <= template@.len(),
    ensures
        stop == name_end(template@, i as int),
        i <= stop <= template@.len(),
{
    let mut stop: usize = i;
    while stop < template.len() && is_name(template[stop])
        invariant
            i <= stop <= template@.len(),
            name_end(template@, i as int) == name_end(template@, stop as int),
        decreases template@.len() - stop,
    {
        stop += 1;
    }
    stop
}

/// Finds the first closing brace at or after `i`.
fn scan_brace(template: &[u8], i: usize) -> (stop: usize)
    requires
        i <= template@.len(),
    ensures
        stop == brace_end(template@, i as int),
        i <= stop <= template@.len(),
{
    let mut stop: usize = i;
    while stop < template.len() && template[stop] != 0x7d
        invariant
            i <= stop <= template@.len(),
            brace_end(template@, i as int) == brace_end(template@, stop as int),
        decreases template@.len() - stop,
    {
        stop += 1;
    }
    stop
}

/// Whether a byte may stand in an unbraced name.
fn is_name(b: u8) -> (yes: bool)
    ensures
        yes == is_name_byte(b),
{
    (0x30 <= b && b <= 0x39) || (0x41 <= b && b <= 0x5a) || (0x61 <= b && b <= 0x7a) || b == 0x5f
}

/// Reads the reference that the dollar sign at `i` opens.
fn parse_reference(template: &[u8], i: usize) -> (found: Option<(usize, usize, usize)>)
    requires
        i < template@.len(),
    ensures
        match found {
            Some((from, to, end)) => reference_at(template@, i as int) == Some(
                (from as int, to as int, end as int),
            ) && i < from <= to <= end <= template@.len(),
            None => reference_at(template@, i as int) is None,
        },
{
    proof {
        lemma_reference_bounds(template@, i as int);
    }
    if template.len() - i <= 1 {
        None
    } else if template[i + 1] == 0x7b {
        let close = scan_brace(template, i + 2);
        if close < template.len() {
            Some((i + 2, close, close + 1))
        } else {
            None
        }
    } else {
        let stop = scan_name(template, i + 1);
        if stop > i + 1 {
            Some((i + 1, stop, stop))
        } else {
            None
        }
    }
}

/// Whether a name is made of decimal digits.
fn all_digits(name: &[u8]) -> (yes: bool)
    ensures
        yes == is_number(name@),
{
    if name.len() == 0 {
        return false;
    }
    let mut k: usize = 0;
    while k < name.len()
        invariant
            k <= name@.len(),
            forall|j: int| 0 <= j < k ==> 0x30 <= #[trigger] name@[j] <= 0x39,
        decreases name@.len() - k,
    {
        if name[k] < 0x30 || name[k] > 0x39 {
            return false;
        }
        k += 1;
    }
    true
}

/// Whether the number that the digits spell is below `count`.
fn number_below(digits: &[u8], count: usize) -> (yes: bool)
    requires
        is_number(digits@),
    ensures
        yes == (number_value(digits@) < count),
{
    let mut value: usize = 0;
    let mut k: usize = 0;
    assert(digits@.take(0).len() == 0);
    while k < digits.len()
        invariant
            k <= digits@.len(),
            is_number(digits@),
            value == number_value(digits@.take(k as int)),
            k > 0 ==> value < count,
        decreases digits@.len() - k,
    {
        let digit: usize = (digits[k] - 0x30) as usize;
        proof {
            let longer = digits@.take(k + 1);
            assert(longer.drop_last() =~= digits@.take(k as int));
            assert(longer.last() == digits@[k as int]);
            assert(number_value(longer) == value * 10 + digit);
            lemma_number_value_grows(digits@, k + 1);
        }
        if digit >= count || value > (count - 1 - digit) / 10 {
            return false;
        }
        value = value * 10 + digit;
        k += 1;
    }
    assert(digits@.take(k as int) =~= digits@);
    true
}

/// Whether two byte strings are the same.
pub fn bytes_equal(a: &[u8], b: &[u8]) -> (same: bool)
    ensures
        same == (a@ == b@),
{
    if a.len() != b.len() {
        return false;
    }
    let mut k: usize = 0;
    while k < a.len()
        invariant
            k <= a@.len(),
            a@.len() == b@.len(),
            forall|j: int| 0 <= j < k ==> a@[j] == b@[j],
        decreases a@.len() - k,
    {
        if a[k] != b[k] {
            return false;
        }
        k += 1;
    }
    assert(a@ =~= b@);
    true
}

/// Whether one of the groups has this name.
fn has_group_named(name: &[u8], groups: &Vec<Option<Vec<u8>>>) -> (yes: bool)
    ensures
        yes == names_of(groups@).contains(Some(name@)),
{
    let ghost names = names_of(groups@);
    let mut k: usize = 0;
    while k < groups.len()
        invariant
            k <= groups@.len(),
            names == names_of(groups@),
            forall|j: int| 0 <= j < k ==> names[j] != Some(name@),
        decreases groups@.len() - k,
    {
        match &groups[k] {
            Some(known) => {
                if bytes_equal(known.as_slice(), name) {
                    assert(names[k as int] == Some(name@));
                    return true;
                }
                assert(names[k as int] != Some(name@));
            },
            None => {
                assert(names[k as int] != Some(name@));
            },
        }
        k += 1;
    }
    false
}

/// Whether the pattern has the group that `name` refers to.
pub fn refers_to_group(name: &[u8], groups: &Vec<Option<Vec<u8>>>) -> (yes: bool)
    ensures
        yes == satisfiable(name@, names_of(groups@)),
{
    if all_digits(name) {
        number_below(name, groups.len())
    } else {
        has_group_named(name, groups)
    }
}

/// Checks that every capture reference in `template` names a group of a
/// pattern whose groups are named `groups`, in the order of their numbers.
/// The first reference that does not is reported by its place in the
/// template.
pub fn validate_replace(template: &[u8], groups: &Vec<Option<Vec<u8>>>) -> (r: Result<
    (),
    InvalidReplaceCapture,
>)
    ensures
        match r {
            Ok(_) => template_satisfied(template@, names_of(groups@)),
            Err(e) => first_unsatisfied(template@, names_of(groups@), 0) == Some(
                (e.start as int, e.end as int),
            ),
        },
{
    let ghost names = names_of(groups@);
    let mut i: usize = 0;
    while i < template.len()
        invariant
            i <= template@.len(),
            names == names_of(groups@),
            first_unsatisfied(template@, names, 0) == first_unsatisfied(template@, names, i as int),
        decreases template@.len() - i,
    {
        if template[i] != 0x24 {
            i += 1;
        } else if i + 1 < template.len() && template[i + 1] == 0x24 {
            i += 2;
        } else {
            match parse_reference(template, i) {
                None => {
                    i += 1;
                },
                Some((from, to, end)) => {
                    let name = &template[from..to];
                    if refers_to_group(name, groups) {
                        i = end;
                    } else {
                        return Err(InvalidReplaceCapture { start: i, end });
                    }
                },
            }
        }
    }
    Ok(())
}

} // verus!
