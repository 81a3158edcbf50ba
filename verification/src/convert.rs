//! Tool arguments coming from sandbox code, and dataset handles going back to it.
//!
//! An argument is held as an `Arg`: the shape the conversions read (a string, an integer, a
//! boolean, a list or tuple of arguments, or anything else) together with the text the
//! sandbox's debug rendering gives it, which the error messages quote.
use vstd::prelude::*;

use crate::engine::Dataset;
use crate::error::DropletError;
use crate::registry::Registry;

verus! {

/// The shape of a sandbox value, as far as argument conversion reads it.
#[derive(Debug)]
pub enum ArgShape {
    Str(String),
    Int(i64),
    Bool(bool),
    /// A list or a tuple.
    Items(Vec<Arg>),
    /// Any other value (floats among them: they are read by the caller).
    Other,
}

/// A sandbox value passed as a tool argument.
#[derive(Debug)]
pub struct Arg {
    pub shape: ArgShape,
    /// The debug rendering of the value.
    pub debug: String,
}

/// `expected WHAT, got DEBUG`.
pub open spec fn expected_message(what: Seq<char>, debug: Seq<char>) -> Seq<char> {
    "expected "@ + what + ", got "@ + debug
}

/// The error for an argument that is not what was expected.
pub open spec fn is_expected_error(r: DropletError, what: Seq<char>, a: Arg) -> bool {
    r matches DropletError::BadArg(m) && m@ == expected_message(what, a.debug@)
}

fn expected(what: &str, a: &Arg) -> (e: DropletError)
    ensures
        is_expected_error(e, what@, *a),
{
    let mut m = String::from_str("expected ");
    m.append(what);
    m.append(", got ");
    m.append(a.debug.as_str());
    DropletError::BadArg(m)
}

/// A `str` argument.
pub fn string_from_arg(a: &Arg) -> (r: Result<String, DropletError>)
    ensures
        match a.shape {
            ArgShape::Str(s) => r matches Ok(v) && v@ == s@,
            _ => r matches Err(e) && is_expected_error(e, "str"@, *a),
        },
{
    match &a.shape {
        ArgShape::Str(s) => Ok(s.clone()),
        _ => Err(expected("str", a)),
    }
}

/// An `int` argument.
pub fn int_from_arg(a: &Arg) -> (r: Result<i64, DropletError>)
    ensures
        match a.shape {
            ArgShape::Int(n) => r == Ok::<i64, DropletError>(n),
            _ => r matches Err(e) && is_expected_error(e, "int"@, *a),
        },
{
    match &a.shape {
        ArgShape::Int(n) => Ok(*n),
        _ => Err(expected("int", a)),
    }
}

/// A `bool` argument.
pub fn bool_from_arg(a: &Arg) -> (r: Result<bool, DropletError>)
    ensures
        match a.shape {
            ArgShape::Bool(b) => r == Ok::<bool, DropletError>(b),
            _ => r matches Err(e) && is_expected_error(e, "bool"@, *a),
        },
{
    match &a.shape {
        ArgShape::Bool(b) => Ok(*b),
        _ => Err(expected("bool", a)),
    }
}

/// The elements of a list or tuple argument.
pub fn as_seq<'a>(a: &'a Arg, what: &str) -> (r: Result<&'a Vec<Arg>, DropletError>)
    ensures
        match a.shape {
            ArgShape::Items(v) => r matches Ok(w) && *w == v,
            _ => r matches Err(e) && is_expected_error(e, what@, *a),
        },
{
    match &a.shape {
        ArgShape::Items(v) => Ok(v),
        _ => Err(expected(what, a)),
    }
}

/// The argument is a string.
pub open spec fn is_str_arg(a: Arg) -> bool {
    a.shape is Str
}

/// The string an argument holds.
pub open spec fn str_of(a: Arg) -> Seq<char> {
    match a.shape {
        ArgShape::Str(s) => s@,
        _ => Seq::empty(),
    }
}

/// The index of the first element that is not a string, if any.
pub open spec fn first_non_str(items: Seq<Arg>, k: int) -> bool {
    0 <= k < items.len() && !is_str_arg(items[k]) && forall|j: int|
        0 <= j < k ==> is_str_arg(#[trigger] items[j])
}

/// What converting a `list[str]` argument gives: the strings in order when every element is
/// one; else the error of the first element that is not.
pub open spec fn strings_outcome(a: Arg, r: Result<Vec<String>, DropletError>) -> bool {
        match a.shape {
            ArgShape::Items(items) => if forall|k: int|
                0 <= k < items@.len() ==> is_str_arg(#[trigger] items@[k]) {
                r matches Ok(v) && v@.len() == items@.len() && forall|k: int|
                    0 <= k < items@.len() ==> #[trigger] v@[k]@ == str_of(items@[k])
            } else {
                exists|k: int|
                    first_non_str(items@, k) && (r matches Err(e) && is_expected_error(
                        e,
                        "str"@,
                        #[trigger] items@[k],
                    ))
            },
            _ => r matches Err(e) && is_expected_error(e, "list[str]"@, a),
        }
}

/// A list whose elements are all strings converts to every string, in order: as many strings
/// as elements, string `k` being element `k`.
pub proof fn law_strings_keep_every_element(a: Arg, r: Result<Vec<String>, DropletError>)
    requires
        strings_outcome(a, r),
        a.shape is Items,
        forall|k: int| 0 <= k < a.shape->Items_0@.len() ==> (#[trigger] a.shape->Items_0@[k]).shape is Str,
    ensures
        r is Ok,
        r->Ok_0@.len() == a.shape->Items_0@.len(),
        forall|k: int|
            0 <= k < a.shape->Items_0@.len() ==> #[trigger] r->Ok_0@[k]@ == a.shape->Items_0@[k].shape->Str_0@,
{
    let items = a.shape->Items_0@;
    assert forall|k: int| 0 <= k < items.len() implies is_str_arg(#[trigger] items[k]) by {}
    assert forall|k: int| 0 <= k < items.len() implies #[trigger] r->Ok_0@[k]@ == items[k].shape->Str_0@ by {
        assert(str_of(items[k]) == items[k].shape->Str_0@);
    }
}

/// The first element that is not a string decides the error, whatever follows it: the
/// conversion fails with `expected str, got DEBUG` for that element's debug text.
pub proof fn law_strings_first_bad_element_decides(a: Arg, r: Result<Vec<String>, DropletError>, k: int)
    requires
        strings_outcome(a, r),
        a.shape is Items,
        0 <= k < a.shape->Items_0@.len(),
        !(a.shape->Items_0@[k].shape is Str),
        forall|j: int| 0 <= j < k ==> (#[trigger] a.shape->Items_0@[j]).shape is Str,
    ensures
        r matches Err(DropletError::BadArg(m)) && m@ == "expected "@ + "str"@ + ", got "@
            + a.shape->Items_0@[k].debug@,
{
    let items = a.shape->Items_0@;
    assert(!is_str_arg(items[k]));
    assert(first_non_str(items, k));
    let k2 = choose|k2: int| first_non_str(items, k2) && (r matches Err(e) && is_expected_error(e, "str"@, #[trigger] items[k2]));
    if k2 < k {
        assert(is_str_arg(items[k2]));
    } else if k2 > k {
        assert(is_str_arg(items[k]));
    }
}

/// A `list[str]` argument.
pub fn strings_from_arg(a: &Arg) -> (r: Result<Vec<String>, DropletError>)
    ensures
        strings_outcome(*a, r),
{
    let items = as_seq(a, "list[str]")?;
    let mut out: Vec<String> = Vec::new();
    let mut i: usize = 0;
    while i < items.len()
        invariant
            a.shape == ArgShape::Items(*items),
            i <= items@.len(),
            out@.len() == i,
            forall|k: int| 0 <= k < i ==> is_str_arg(#[trigger] items@[k]),
            forall|k: int| 0 <= k < i ==> #[trigger] out@[k]@ == str_of(items@[k]),
        decreases items@.len() - i,
    {
        match string_from_arg(&items[i]) {
            Ok(s) => out.push(s),
            Err(e) => {
                proof {
                    assert(!is_str_arg(items@[i as int]));
                    assert(first_non_str(items@, i as int));
                    assert(is_expected_error(e, "str"@, items@[i as int]));
                    let r: Result<Vec<String>, DropletError> = Err(e);
                    assert(exists|k: int|
                        first_non_str(items@, k) && (r matches Err(e) && is_expected_error(
                            e,
                            "str"@,
                            #[trigger] items@[k],
                        )));
                    assert(!(forall|k: int| 0 <= k < items@.len() ==> is_str_arg(#[trigger] items@[k])));
                    assert(a.shape->Items_0 == *items);
                    assert(match a.shape {
                        ArgShape::Items(its) => if forall|k: int|
                            0 <= k < its@.len() ==> is_str_arg(#[trigger] its@[k]) {
                            false
                        } else {
                            exists|k: int|
                                first_non_str(its@, k) && (r matches Err(e) && is_expected_error(
                                    e,
                                    "str"@,
                                    #[trigger] its@[k],
                                ))
                        },
                        _ => false,
                    });
                }
                return Err(e);
            },
        }
        i = i + 1;
    }
    Ok(out)
}

/// The message for a sequence that is not a pair.
pub open spec fn pair_message() -> Seq<char> {
    "expected a 2-tuple"@
}

/// The two elements of a pair argument, or the error for any other sequence.
pub fn as_pair<'a>(a: &'a Arg, what: &str) -> (r: Result<(&'a Arg, &'a Arg), DropletError>)
    ensures
        match a.shape {
            ArgShape::Items(v) => if v@.len() == 2 {
                r matches Ok(p) && *p.0 == v@[0] && *p.1 == v@[1]
            } else {
                r matches Err(DropletError::BadArg(m)) && m@ == pair_message()
            },
            _ => r matches Err(e) && is_expected_error(e, what@, *a),
        },
{
    let pair = as_seq(a, what)?;
    if pair.len() != 2 {
        return Err(DropletError::BadArg(String::from_str("expected a 2-tuple")));
    }
    Ok((&pair[0], &pair[1]))
}

/// The element is a pair of strings.
pub open spec fn is_str_pair(item: Arg) -> bool {
    &&& item.shape is Items
    &&& item.shape->Items_0@.len() == 2
    &&& is_str_arg(item.shape->Items_0@[0])
    &&& is_str_arg(item.shape->Items_0@[1])
}

/// `e` is the error for an element that is not a pair of strings: not a sequence, a
/// sequence of another length, or a pair whose first (else second) element is not a string.
pub open spec fn str_pair_error(e: DropletError, item: Arg) -> bool {
    if !(item.shape is Items) {
        is_expected_error(e, "tuple[str, str]"@, item)
    } else if item.shape->Items_0@.len() != 2 {
        e matches DropletError::BadArg(m) && m@ == pair_message()
    } else if !is_str_arg(item.shape->Items_0@[0]) {
        is_expected_error(e, "str"@, item.shape->Items_0@[0])
    } else {
        is_expected_error(e, "str"@, item.shape->Items_0@[1])
    }
}

/// What converting a `list[tuple[str, str]]` argument gives: the pairs of strings in order
/// when every element is one; else the error of the first element that is not.
pub open spec fn string_pairs_outcome(a: Arg, r: Result<Vec<(String, String)>, DropletError>) -> bool {
    match a.shape {
        ArgShape::Items(items) => if forall|k: int|
            0 <= k < items@.len() ==> is_str_pair(#[trigger] items@[k]) {
            r matches Ok(v) && v@.len() == items@.len() && forall|k: int|
                0 <= k < items@.len() ==> {
                    let pair = (#[trigger] items@[k]).shape->Items_0@;
                    &&& v@[k].0@ == str_of(pair[0])
                    &&& v@[k].1@ == str_of(pair[1])
                }
        } else {
            exists|k: int|
                0 <= k < items@.len() && !is_str_pair(#[trigger] items@[k]) && (forall|j: int|
                    0 <= j < k ==> is_str_pair(#[trigger] items@[j])) && (r matches Err(e)
                    && str_pair_error(e, items@[k]))
        },
        _ => r matches Err(e) && is_expected_error(e, "list[tuple[str, str]]"@, a),
    }
}

proof fn lemma_first_bad_pair(a: Arg, items: Vec<Arg>, k: int, e: DropletError)
    requires
        a.shape == ArgShape::Items(items),
        0 <= k < items@.len(),
        forall|j: int| 0 <= j < k ==> is_str_pair(#[trigger] items@[j]),
        !is_str_pair(items@[k]),
        str_pair_error(e, items@[k]),
    ensures
        string_pairs_outcome(a, Err(e)),
{
    let r: Result<Vec<(String, String)>, DropletError> = Err(e);
    assert(!is_str_pair(items@[k]));
    assert(exists|k2: int|
        0 <= k2 < items@.len() && !is_str_pair(#[trigger] items@[k2]) && (forall|j: int|
            0 <= j < k2 ==> is_str_pair(#[trigger] items@[j])) && (r matches Err(e)
            && str_pair_error(e, items@[k2])));
}

/// A list whose elements are all 2-tuples of strings converts to every pair, in order: as
/// many pairs as elements, pair `k` holding the two strings of element `k`.
pub proof fn law_string_pairs_keep_every_pair(
    a: Arg,
    r: Result<Vec<(String, String)>, DropletError>,
)
    requires
        string_pairs_outcome(a, r),
        a.shape is Items,
        forall|k: int|
            0 <= k < a.shape->Items_0@.len() ==> {
                let e = #[trigger] a.shape->Items_0@[k];
                &&& e.shape is Items
                &&& e.shape->Items_0@.len() == 2
                &&& e.shape->Items_0@[0].shape is Str
                &&& e.shape->Items_0@[1].shape is Str
            },
    ensures
        r is Ok,
        r->Ok_0@.len() == a.shape->Items_0@.len(),
        forall|k: int|
            0 <= k < a.shape->Items_0@.len() ==> {
                let e = #[trigger] a.shape->Items_0@[k].shape->Items_0@;
                &&& r->Ok_0@[k].0@ == e[0].shape->Str_0@
                &&& r->Ok_0@[k].1@ == e[1].shape->Str_0@
            },
{
    let items = a.shape->Items_0@;
    assert forall|k: int| 0 <= k < items.len() implies is_str_pair(#[trigger] items[k]) by {
        let e = items[k];
        assert(e.shape is Items);
    }
    let v = r->Ok_0@;
    assert forall|k: int| 0 <= k < items.len() implies {
        let e = #[trigger] items[k].shape->Items_0@;
        &&& v[k].0@ == e[0].shape->Str_0@
        &&& v[k].1@ == e[1].shape->Str_0@
    } by {
        assert(is_str_pair(items[k]));
        let e = items[k].shape->Items_0@;
        assert(str_of(e[0]) == e[0].shape->Str_0@);
        assert(str_of(e[1]) == e[1].shape->Str_0@);
    }
}

/// A `list[tuple[str, str]]` argument; the first element that is not a pair of strings
/// decides the error.
pub fn string_pairs_from_arg(a: &Arg) -> (r: Result<Vec<(String, String)>, DropletError>)
    ensures
        string_pairs_outcome(*a, r),
{
    let items = match as_seq(a, "list[tuple[str, str]]") {
        Ok(v) => v,
        Err(e) => return Err(e),
    };
    let mut out: Vec<(String, String)> = Vec::new();
    let mut i: usize = 0;
    while i < items.len()
        invariant
            a.shape == ArgShape::Items(*items),
            i <= items@.len(),
            out@.len() == i,
            forall|k: int| 0 <= k < i ==> is_str_pair(#[trigger] items@[k]),
            forall|k: int|
                0 <= k < i ==> {
                    let pair = (#[trigger] items@[k]).shape->Items_0@;
                    &&& out@[k].0@ == str_of(pair[0])
                    &&& out@[k].1@ == str_of(pair[1])
                },
        decreases items@.len() - i,
    {
        let (x, y) = match as_pair(&items[i], "tuple[str, str]") {
            Ok(p) => p,
            Err(e) => {
                proof {
                    lemma_first_bad_pair(*a, *items, i as int, e);
                }
                return Err(e);
            },
        };
        let first = match string_from_arg(x) {
            Ok(v) => v,
            Err(e) => {
                proof {
                    lemma_first_bad_pair(*a, *items, i as int, e);
                }
                return Err(e);
            },
        };
        let second = match string_from_arg(y) {
            Ok(v) => v,
            Err(e) => {
                proof {
                    lemma_first_bad_pair(*a, *items, i as int, e);
                }
                return Err(e);
            },
        };
        out.push((first, second));
        i = i + 1;
    }
    Ok(out)
}

/// The message for a negative dataset handle.
pub open spec fn negative_handle_message() -> Seq<char> {
    "dataset handle must be non-negative"@
}

/// What converting a dataset argument gives: the dataset a held non-negative handle names;
/// `BadArg` for a negative integer, `BadHandle` for one not held, and the expected-`int`
/// error for anything else.
pub open spec fn dataset_outcome(handles: Map<u64, Dataset>, a: Arg, r: Result<Dataset, DropletError>) -> bool {
    match a.shape {
        ArgShape::Int(n) => if n < 0 {
            r matches Err(DropletError::BadArg(m)) && m@ == negative_handle_message()
        } else if handles.contains_key(n as u64) {
            r matches Ok(d) && d.name() == handles[n as u64].name()
        } else {
            r matches Err(DropletError::BadHandle(h)) && h == n as u64
        },
        _ => r matches Err(e) && is_expected_error(e, "int"@, a),
    }
}

/// Handing a dataset back and passing the handle in again gives the same dataset: after
/// `dataset_into_ret` stores `ds` under the next handle and returns it, converting that
/// integer as a dataset argument names `ds`'s view, whatever else the registry holds.
pub proof fn law_returned_handle_resolves(
    before: Map<u64, Dataset>,
    next: u64,
    ds: Dataset,
    a: Arg,
    r: Result<Dataset, DropletError>,
)
    requires
        next < 0x8000_0000_0000_0000u64,
        a.shape == ArgShape::Int(next as i64),
        dataset_outcome(before.insert(next, ds), a, r),
    ensures
        r is Ok,
        r->Ok_0.name() == ds.name(),
{
    assert((next as i64) >= 0);
    assert((next as i64) as u64 == next);
}

/// A dataset argument: a non-negative integer handle that the registry holds.
pub fn dataset_from_arg(handles: &Registry<Dataset>, a: &Arg) -> (r: Result<Dataset, DropletError>)
    ensures
        dataset_outcome(handles@, *a, r),
{
    let n = int_from_arg(a)?;
    if n < 0 {
        return Err(DropletError::BadArg(String::from_str("dataset handle must be non-negative")));
    }
    let handle = n as u64;
    let ds = handles.require(handle)?;
    Ok(ds.clone())
}

/// A dataset going back to the sandbox: kept in the registry, and its fresh handle returned.
pub fn dataset_into_ret(handles: &mut Registry<Dataset>, ds: Dataset) -> (r: i64)
    requires
        old(handles).next_handle() < u64::MAX,
    ensures
        r == old(handles).next_handle() as i64,
        final(handles)@ == old(handles)@.insert(old(handles).next_handle(), ds),
        final(handles).next_handle() == old(handles).next_handle() + 1,
{
    let h = handles.insert(ds);
    h as i64
}

/// The element is a pair of a string and a held, non-negative dataset handle.
pub open spec fn is_dataset_pair(handles: Map<u64, Dataset>, item: Arg) -> bool {
    &&& item.shape is Items
    &&& item.shape->Items_0@.len() == 2
    &&& is_str_arg(item.shape->Items_0@[0])
    &&& item.shape->Items_0@[1].shape is Int
    &&& item.shape->Items_0@[1].shape->Int_0 >= 0
    &&& handles.contains_key(item.shape->Items_0@[1].shape->Int_0 as u64)
}

/// `e` is the error for an element that is not a name and a held dataset handle.
pub open spec fn dataset_pair_error(e: DropletError, handles: Map<u64, Dataset>, item: Arg) -> bool {
    if !(item.shape is Items) {
        is_expected_error(e, "tuple[str, Dataset]"@, item)
    } else if item.shape->Items_0@.len() != 2 {
        e matches DropletError::BadArg(m) && m@ == pair_message()
    } else if !is_str_arg(item.shape->Items_0@[0]) {
        is_expected_error(e, "str"@, item.shape->Items_0@[0])
    } else if !(item.shape->Items_0@[1].shape is Int) {
        is_expected_error(e, "int"@, item.shape->Items_0@[1])
    } else if item.shape->Items_0@[1].shape->Int_0 < 0 {
        e matches DropletError::BadArg(m) && m@ == negative_handle_message()
    } else {
        e == DropletError::BadHandle(item.shape->Items_0@[1].shape->Int_0 as u64)
    }
}

/// What converting a `list[tuple[str, Dataset]]` argument gives: each name with the dataset
/// its handle holds, when every element is such a pair; else the error of the first that is
/// not.
pub open spec fn named_datasets_outcome(
    handles: Map<u64, Dataset>,
    a: Arg,
    r: Result<Vec<(String, Dataset)>, DropletError>,
) -> bool {
    match a.shape {
        ArgShape::Items(items) => if forall|k: int|
            0 <= k < items@.len() ==> is_dataset_pair(handles, #[trigger] items@[k]) {
            r matches Ok(v) && v@.len() == items@.len() && forall|k: int|
                0 <= k < items@.len() ==> {
                    let pair = (#[trigger] items@[k]).shape->Items_0@;
                    &&& v@[k].0@ == str_of(pair[0])
                    &&& v@[k].1.name() == handles[pair[1].shape->Int_0 as u64].name()
                }
        } else {
            exists|k: int|
                0 <= k < items@.len() && !is_dataset_pair(handles, #[trigger] items@[k]) && (
                forall|j: int| 0 <= j < k ==> is_dataset_pair(handles, #[trigger] items@[j]))
                    && (r matches Err(e) && dataset_pair_error(e, handles, items@[k]))
        },
        _ => r matches Err(e) && is_expected_error(e, "list[tuple[str, Dataset]]"@, a),
    }
}

proof fn lemma_first_bad_dataset_pair(
    handles: Map<u64, Dataset>,
    a: Arg,
    items: Vec<Arg>,
    k: int,
    e: DropletError,
)
    requires
        a.shape == ArgShape::Items(items),
        0 <= k < items@.len(),
        forall|j: int| 0 <= j < k ==> is_dataset_pair(handles, #[trigger] items@[j]),
        !is_dataset_pair(handles, items@[k]),
        dataset_pair_error(e, handles, items@[k]),
    ensures
        named_datasets_outcome(handles, a, Err(e)),
{
    let r: Result<Vec<(String, Dataset)>, DropletError> = Err(e);
    assert(!is_dataset_pair(handles, items@[k]));
    assert(exists|k2: int|
        0 <= k2 < items@.len() && !is_dataset_pair(handles, #[trigger] items@[k2]) && (forall|
            j: int,
        | 0 <= j < k2 ==> is_dataset_pair(handles, #[trigger] items@[j])) && (r matches Err(e)
            && dataset_pair_error(e, handles, items@[k2])));
}

/// A list whose elements are all pairs of a string and a held, non-negative handle converts
/// to every pair, in order: pair `k` holds element `k`'s string and the dataset its handle
/// names.
pub proof fn law_named_datasets_keep_every_pair(
    handles: Map<u64, Dataset>,
    a: Arg,
    r: Result<Vec<(String, Dataset)>, DropletError>,
)
    requires
        named_datasets_outcome(handles, a, r),
        a.shape is Items,
        forall|k: int|
            0 <= k < a.shape->Items_0@.len() ==> {
                let e = #[trigger] a.shape->Items_0@[k];
                &&& e.shape is Items
                &&& e.shape->Items_0@.len() == 2
                &&& e.shape->Items_0@[0].shape is Str
                &&& e.shape->Items_0@[1].shape is Int
                &&& e.shape->Items_0@[1].shape->Int_0 >= 0
                &&& handles.contains_key(e.shape->Items_0@[1].shape->Int_0 as u64)
            },
    ensures
        r is Ok,
        r->Ok_0@.len() == a.shape->Items_0@.len(),
        forall|k: int|
            0 <= k < a.shape->Items_0@.len() ==> {
                let e = #[trigger] a.shape->Items_0@[k].shape->Items_0@;
                &&& r->Ok_0@[k].0@ == e[0].shape->Str_0@
                &&& r->Ok_0@[k].1.name() == handles[e[1].shape->Int_0 as u64].name()
            },
{
    let items = a.shape->Items_0@;
    assert forall|k: int| 0 <= k < items.len() implies is_dataset_pair(handles, #[trigger] items[k]) by {}
    let v = r->Ok_0@;
    assert forall|k: int| 0 <= k < items.len() implies {
        let e = #[trigger] items[k].shape->Items_0@;
        &&& v[k].0@ == e[0].shape->Str_0@
        &&& v[k].1.name() == handles[e[1].shape->Int_0 as u64].name()
    } by {
        assert(is_dataset_pair(handles, items[k]));
        let e = items[k].shape->Items_0@;
        assert(str_of(e[0]) == e[0].shape->Str_0@);
    }
}

/// A dataset handed back to the sandbox is found again from the integer it received: the
/// handle `dataset_into_ret` returns, passed back as an argument, names the same dataset.
pub proof fn law_handle_round_trip(before: Map<u64, Dataset>, next: u64, ds: Dataset)
    requires
        next < 0x8000_0000_0000_0000u64,
    ensures
        ({
            let h = next as i64;
            let after = before.insert(next, ds);
            &&& h >= 0
            &&& after.contains_key(h as u64)
            &&& after[h as u64].name() == ds.name()
        }),
{
}

/// A `list[tuple[str, Dataset]]` argument: each pair is a name and a held dataset handle;
/// the first element that is not decides the error.
pub fn named_datasets_from_arg(handles: &Registry<Dataset>, a: &Arg) -> (r: Result<
    Vec<(String, Dataset)>,
    DropletError,
>)
    ensures
        named_datasets_outcome(handles@, *a, r),
{
    let items = match as_seq(a, "list[tuple[str, Dataset]]") {
        Ok(v) => v,
        Err(e) => return Err(e),
    };
    let mut out: Vec<(String, Dataset)> = Vec::new();
    let mut i: usize = 0;
    while i < items.len()
        invariant
            a.shape == ArgShape::Items(*items),
            i <= items@.len(),
            out@.len() == i,
            forall|k: int| 0 <= k < i ==> is_dataset_pair(handles@, #[trigger] items@[k]),
            forall|k: int|
                0 <= k < i ==> {
                    let pair = (#[trigger] items@[k]).shape->Items_0@;
                    &&& out@[k].0@ == str_of(pair[0])
                    &&& out@[k].1.name() == handles@[pair[1].shape->Int_0 as u64].name()
                },
        decreases items@.len() - i,
    {
        let (alias, handle) = match as_pair(&items[i], "tuple[str, Dataset]") {
            Ok(p) => p,
            Err(e) => {
                proof {
                    lemma_first_bad_dataset_pair(handles@, *a, *items, i as int, e);
                }
                return Err(e);
            },
        };
        let name = match string_from_arg(alias) {
            Ok(v) => v,
            Err(e) => {
                proof {
                    lemma_first_bad_dataset_pair(handles@, *a, *items, i as int, e);
                }
                return Err(e);
            },
        };
        let ds = match dataset_from_arg(handles, handle) {
            Ok(v) => v,
            Err(e) => {
                proof {
                    lemma_first_bad_dataset_pair(handles@, *a, *items, i as int, e);
                }
                return Err(e);
            },
        };
        out.push((name, ds));
        i = i + 1;
    }
    Ok(out)
}

} // verus!
