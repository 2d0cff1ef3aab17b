//! Pairing the files of two captured state directories: which pairs are
//! compared, how, and which files exist on one side only.
use vstd::prelude::*;

use crate::text::str_chars;

verus! {

/// A file of a state directory: its path relative to the directory, and its
/// extension when it has one.
#[derive(Debug, Clone)]
pub struct StateFile {
    pub key: String,
    pub extension: Option<String>,
}

/// How two files with the same relative path are compared.
#[derive(Debug, Clone, Copy, PartialEq, Eq, Structural)]
pub enum CompareKind {
    /// Byte by byte (`.bin` files).
    Bytes,
    /// As text (`.txt` files).
    Text,
}

/// One step of comparing two state directories; the numbers are positions in
/// the left and right file lists.
#[derive(Debug, Clone, Copy, PartialEq, Eq, Structural)]
pub enum CompareAction {
    Compare { left: usize, right: usize, kind: CompareKind },
    MissingOnRight(usize),
    MissingOnLeft(usize),
}

/// Whether `c` is the lower-case ASCII letter `lower` in either case.
pub open spec fn letter_matches(c: char, lower: char) -> bool {
    c as u32 == lower as u32 || c as u32 + 32 == lower as u32
}

/// The comparison an extension calls for, ignoring ASCII case: `bin` or `txt`.
pub open spec fn kind_of_extension(ext: Seq<char>) -> Option<CompareKind> {
    if ext.len() == 3 && letter_matches(ext[0], 'b') && letter_matches(ext[1], 'i')
        && letter_matches(ext[2], 'n') {
        Some(CompareKind::Bytes)
    } else if ext.len() == 3 && letter_matches(ext[0], 't') && letter_matches(ext[1], 'x')
        && letter_matches(ext[2], 't') {
        Some(CompareKind::Text)
    } else {
        None
    }
}

/// Position of the first file at or after `from` whose relative path is `key`.
pub open spec fn first_with_key(files: Seq<StateFile>, key: Seq<char>, from: int) -> Option<int>
    decreases files.len() - from,
{
    if from < 0 || from >= files.len() {
        None
    } else if files[from].key@ == key {
        Some(from)
    } else {
        first_with_key(files, key, from + 1)
    }
}

/// What left file `i` leads to: a comparison with the right file of the same
/// path when its extension is `bin` or `txt` (nothing for another one), or a
/// report that the right side lacks it.
pub open spec fn left_action(left: Seq<StateFile>, right: Seq<StateFile>, i: int) -> Option<
    CompareAction,
> {
    match first_with_key(right, left[i].key@, 0) {
        Some(j) => match left[i].extension {
            Some(e) => match kind_of_extension(e@) {
                Some(kind) => Some(
                    CompareAction::Compare { left: i as usize, right: j as usize, kind },
                ),
                None => None,
            },
            None => None,
        },
        None => Some(CompareAction::MissingOnRight(i as usize)),
    }
}

/// What right file `j` leads to: a report that the left side lacks it, if it does.
pub open spec fn right_action(left: Seq<StateFile>, right: Seq<StateFile>, j: int) -> Option<
    CompareAction,
> {
    if first_with_key(left, right[j].key@, 0) is None {
        Some(CompareAction::MissingOnLeft(j as usize))
    } else {
        None
    }
}

/// The actions of the first `n` left files, in order.
pub open spec fn left_actions(left: Seq<StateFile>, right: Seq<StateFile>, n: int) -> Seq<
    CompareAction,
>
    decreases n,
{
    if n <= 0 {
        seq![]
    } else {
        let before = left_actions(left, right, n - 1);
        match left_action(left, right, n - 1) {
            Some(a) => before.push(a),
            None => before,
        }
    }
}

/// The actions of the first `n` right files, in order.
pub open spec fn right_actions(left: Seq<StateFile>, right: Seq<StateFile>, n: int) -> Seq<
    CompareAction,
>
    decreases n,
{
    if n <= 0 {
        seq![]
    } else {
        let before = right_actions(left, right, n - 1);
        match right_action(left, right, n - 1) {
            Some(a) => before.push(a),
            None => before,
        }
    }
}

/// The comparison an extension calls for.
pub fn extension_kind(ext: &str) -> (kind: Option<CompareKind>)
    ensures
        kind == kind_of_extension(ext@),
{
    let c = str_chars(ext);
    if c.len() != 3 {
        return None;
    }
    let a = c[0] as u32;
    let b = c[1] as u32;
    let d = c[2] as u32;
    assert('b' as u32 == 98 && 'i' as u32 == 105 && 'n' as u32 == 110);
    assert('t' as u32 == 116 && 'x' as u32 == 120);
    if (a == 98 || a == 66) && (b == 105 || b == 73) && (d == 110 || d == 78) {
        Some(CompareKind::Bytes)
    } else if (a == 116 || a == 84) && (b == 120 || b == 88) && (d == 116 || d == 84) {
        Some(CompareKind::Text)
    } else {
        None
    }
}

/// Position of the first file whose relative path is `key`.
fn find_key(files: &Vec<StateFile>, key: &String) -> (found: Option<usize>)
    ensures
        found matches Some(j) ==> first_with_key(files@, key@, 0) == Some(j as int),
        found is None ==> first_with_key(files@, key@, 0) is None,
{
    let mut i: usize = 0;
    while i < files.len()
        invariant
            i <= files.len(),
            first_with_key(files@, key@, 0) == first_with_key(files@, key@, i as int),
        decreases files.len() - i,
    {
        if files[i].key == *key {
            return Some(i);
        }
        i = i + 1;
    }
    None
}

/// The steps of comparing two state directories: for each left file in turn,
/// its comparison or its absence on the right; then each right file absent
/// on the left.
pub fn plan_state_comparison(left: &Vec<StateFile>, right: &Vec<StateFile>) -> (plan: Vec<
    CompareAction,
>)
    ensures
        plan@ == left_actions(left@, right@, left@.len() as int) + right_actions(
            left@,
            right@,
            right@.len() as int,
        ),
{
    let mut plan: Vec<CompareAction> = Vec::new();
    let mut i: usize = 0;
    while i < left.len()
        invariant
            i <= left.len(),
            plan@ == left_actions(left@, right@, i as int),
        decreases left.len() - i,
    {
        match find_key(right, &left[i].key) {
            Some(j) => {
                match &left[i].extension {
                    Some(e) => {
                        match extension_kind(e.as_str()) {
                            Some(kind) => plan.push(
                                CompareAction::Compare { left: i, right: j, kind },
                            ),
                            None => {},
                        }
                    },
                    None => {},
                }
            },
            None => plan.push(CompareAction::MissingOnRight(i)),
        }
        i = i + 1;
    }
    let ghost from_left = plan@;
    let mut j: usize = 0;
    while j < right.len()
        invariant
            j <= right.len(),
            from_left == left_actions(left@, right@, left@.len() as int),
            plan@ == from_left + right_actions(left@, right@, j as int),
        decreases right.len() - j,
    {
        if find_key(left, &right[j].key).is_none() {
            plan.push(CompareAction::MissingOnLeft(j));
        }
        j = j + 1;
        assert(plan@ =~= from_left + right_actions(left@, right@, j as int));
    }
    plan
}

} // verus!
