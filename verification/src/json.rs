//! JSON text, taken apart just far enough to read single members of it.
//!
//! `serde_json` decides what is well-formed and decodes strings and numbers.
//! This module only finds where the items of a bracketed text begin and end.

use vstd::prelude::*;

use crate::text::same_text;

verus! {

/// Whether `serde_json` reads these bytes as one JSON value.
pub uninterp spec fn json_well_formed(text: Seq<u8>) -> bool;

/// The string that `serde_json` decodes from these bytes, if they hold one.
pub uninterp spec fn json_text(text: Seq<u8>) -> Option<Seq<char>>;

/// What `serde_json` decodes from these bytes where a string or `null` is expected.
pub uninterp spec fn json_optional_text(text: Seq<u8>) -> Option<Option<Seq<char>>>;

/// The integer that stands at a JSON pointer in these bytes, as `serde_json` reads them.
pub uninterp spec fn json_integer_at(text: Seq<u8>, pointer: Seq<char>) -> Option<i64>;

/// An optional text, by its characters.
pub open spec fn opt_text(text: Option<String>) -> Option<Seq<char>> {
    match text {
        Some(t) => Some(t@),
        None => None,
    }
}

/// `serde_json::from_slice` into `serde::de::IgnoredAny`: whether it accepts the bytes.
/// The contract only names the answer, which the bytes alone decide.
#[verifier::external_body]
pub(crate) fn well_formed(text: &[u8]) -> (ok: bool)
    ensures
        ok == json_well_formed(text@),
{
    serde_json::from_slice::<serde::de::IgnoredAny>(text).is_ok()
}

/// `serde_json::from_slice` into `String`. The contract only names the decoded string,
/// which the bytes alone decide; `None` stands for any error.
#[verifier::external_body]
fn decode_text(text: &[u8]) -> (decoded: Option<String>)
    ensures
        opt_text(decoded) == json_text(text@),
{
    serde_json::from_slice::<String>(text).ok()
}

/// `serde_json::from_slice` into `Option<String>`. The contract only names what is decoded,
/// which the bytes alone decide; `None` stands for any error.
#[verifier::external_body]
fn decode_optional_text(text: &[u8]) -> (decoded: Option<Option<String>>)
    ensures
        match decoded {
            Some(value) => json_optional_text(text@) == Some(opt_text(value)),
            None => json_optional_text(text@) is None,
        },
{
    serde_json::from_slice::<Option<String>>(text).ok()
}

/// `serde_json::from_slice` into a `serde_json::Value`, then `Value::pointer` and
/// `Value::as_i64`. The contract only names the integer found, which the bytes and the
/// pointer alone decide; `None` stands for malformed bytes, for a pointer that leads
/// nowhere and for a value that is no `i64`.
#[verifier::external_body]
pub(crate) fn integer_at(text: &[u8], pointer: &str) -> (found: Option<i64>)
    ensures
        found == json_integer_at(text@, pointer@),
{
    serde_json::from_slice::<serde_json::Value>(text).ok()?.pointer(pointer)?.as_i64()
}

/// Where a scan stands: how many brackets are open, and whether it is inside a string.
pub struct Scan {
    pub depth: nat,
    pub quoted: bool,
    pub escaped: bool,
}

/// The scan behind one more byte.
pub open spec fn scan_step(at: Scan, byte: u8) -> Scan {
    if at.quoted {
        if at.escaped {
            Scan { escaped: false, ..at }
        } else if byte == 0x5c {
            Scan { escaped: true, ..at }
        } else if byte == 0x22 {
            Scan { quoted: false, ..at }
        } else {
            at
        }
    } else if byte == 0x22 {
        Scan { quoted: true, ..at }
    } else if byte == 0x7b || byte == 0x5b {
        Scan { depth: at.depth + 1, ..at }
    } else if byte == 0x7d || byte == 0x5d {
        Scan { depth: if at.depth > 0 { (at.depth - 1) as nat } else { 0 }, ..at }
    } else {
        at
    }
}

/// The scan of the first `i` bytes of `text`.
pub open spec fn scan_at(text: Seq<u8>, i: int) -> Scan
    decreases i,
{
    if i <= 0 {
        Scan { depth: 0, quoted: false, escaped: false }
    } else {
        scan_step(scan_at(text, i - 1), text[i - 1])
    }
}

/// Whether `sep` stands at `i`, outside every string and every bracket of `text`.
pub open spec fn separates(text: Seq<u8>, i: int, sep: u8) -> bool {
    &&& text[i] == sep
    &&& !scan_at(text, i).quoted
    &&& scan_at(text, i).depth == 0
}

/// The first position from `i` on where `sep` separates, or the end of `text`.
pub open spec fn next_separator(text: Seq<u8>, i: int, sep: u8) -> int
    decreases text.len() - i,
{
    if i >= text.len() {
        text.len() as int
    } else if separates(text, i, sep) {
        i
    } else {
        next_separator(text, i + 1, sep)
    }
}

/// The parts of `text` from `i` on, between the places where `sep` separates.
pub open spec fn parts_from(text: Seq<u8>, i: int, sep: u8) -> Seq<Seq<u8>>
    decreases text.len() - i,
{
    let cut = next_separator(text, i, sep);
    if i < 0 || cut >= text.len() || cut < i {
        seq![text.subrange(i, text.len() as int)]
    } else {
        seq![text.subrange(i, cut)] + parts_from(text, cut + 1, sep)
    }
}

/// The parts of `text` between the places where `sep` separates.
pub open spec fn parts(text: Seq<u8>, sep: u8) -> Seq<Seq<u8>> {
    parts_from(text, 0, sep)
}

/// ASCII white space: space, tab, line feed, form feed, carriage return.
pub open spec fn is_space(byte: u8) -> bool {
    byte == 0x20 || byte == 0x09 || byte == 0x0a || byte == 0x0c || byte == 0x0d
}

/// The position of the first byte that is no white space, or the end of `text`.
pub open spec fn first_solid(text: Seq<u8>) -> int
    decreases text.len(),
{
    if text.len() == 0 {
        0
    } else if is_space(text[0]) {
        1 + first_solid(text.skip(1))
    } else {
        0
    }
}

/// One past the position of the last byte that is no white space, or zero.
pub open spec fn solid_end(text: Seq<u8>) -> int
    decreases text.len(),
{
    if text.len() == 0 {
        0
    } else if is_space(text.last()) {
        solid_end(text.drop_last())
    } else {
        text.len() as int
    }
}

/// What stands between the brackets of a bracketed text.
pub open spec fn enclosed(text: Seq<u8>) -> Seq<u8> {
    let from = first_solid(text) + 1;
    let to = solid_end(text) - 1;
    if from <= to {
        text.subrange(from, to)
    } else {
        Seq::empty()
    }
}

/// The items of a bracketed text: what its outermost commas separate.
pub open spec fn items(text: Seq<u8>) -> Seq<Seq<u8>> {
    let inner = enclosed(text);
    if first_solid(inner) == inner.len() {
        Seq::empty()
    } else {
        parts(inner, 0x2c)
    }
}

/// The slices of a list, by their bytes.
pub open spec fn slices(list: Seq<&[u8]>) -> Seq<Seq<u8>> {
    list.map_values(|s: &[u8]| s@)
}

fn space(byte: u8) -> (w: bool)
    ensures
        w == is_space(byte),
{
    byte == 0x20 || byte == 0x09 || byte == 0x0a || byte == 0x0c || byte == 0x0d
}

proof fn lemma_first_solid(text: Seq<u8>, k: int)
    requires
        0 <= k <= text.len(),
        forall|j: int| 0 <= j < k ==> is_space(text[j]),
        k < text.len() ==> !is_space(text[k]),
    ensures
        first_solid(text) == k,
    decreases k,
{
    if k > 0 {
        let t = text.skip(1);
        assert forall|j: int| 0 <= j < k - 1 implies is_space(t[j]) by {
            assert(t[j] == text[j + 1]);
        }
        lemma_first_solid(t, k - 1);
    }
}

proof fn lemma_solid_end(text: Seq<u8>, k: int)
    requires
        0 <= k <= text.len(),
        forall|j: int| k <= j < text.len() ==> is_space(text[j]),
        k > 0 ==> !is_space(text[k - 1]),
    ensures
        solid_end(text) == k,
    decreases text.len(),
{
    if k < text.len() {
        lemma_solid_end(text.drop_last(), k);
    }
}

/// The position of the first byte that is no white space, or the end of `text`.
pub(crate) fn find_solid(text: &[u8]) -> (at: usize)
    ensures
        at == first_solid(text@),
        at <= text@.len(),
{
    let mut i: usize = 0;
    while i < text.len() && space(text[i])
        invariant
            i <= text@.len(),
            forall|j: int| 0 <= j < i ==> is_space(#[trigger] text@[j]),
        decreases text@.len() - i,
    {
        i += 1;
    }
    proof {
        lemma_first_solid(text@, i as int);
    }
    i
}

fn find_solid_end(text: &[u8]) -> (end: usize)
    ensures
        end == solid_end(text@),
        end <= text@.len(),
{
    let mut i: usize = text.len();
    while i > 0 && space(text[i - 1])
        invariant
            i <= text@.len(),
            forall|j: int| i <= j < text@.len() ==> is_space(#[trigger] text@[j]),
        decreases i,
    {
        i -= 1;
    }
    proof {
        lemma_solid_end(text@, i as int);
    }
    i
}

/// Takes `text` apart wherever `sep` separates.
fn split(text: &[u8], sep: u8) -> (list: Vec<&[u8]>)
    ensures
        slices(list@) == parts(text@, sep),
{
    let n = text.len();
    let mut list: Vec<&[u8]> = Vec::new();
    let mut depth: usize = 0;
    let mut quoted: bool = false;
    let mut escaped: bool = false;
    let mut from: usize = 0;
    let mut i: usize = 0;
    while i < n
        invariant
            n == text@.len(),
            from <= i <= n,
            depth <= i,
            scan_at(text@, i as int) == (Scan { depth: depth as nat, quoted, escaped }),
            next_separator(text@, from as int, sep) == next_separator(text@, i as int, sep),
            parts(text@, sep) == slices(list@) + parts_from(text@, from as int, sep),
        decreases n - i,
    {
        let byte = text[i];
        if byte == sep && !quoted && depth == 0 {
            let ghost before = slices(list@);
            let part: &[u8] = &text[from..i];
            list.push(part);
            proof {
                assert(slices(list@) =~= before.push(text@.subrange(from as int, i as int)));
                assert(parts_from(text@, from as int, sep) == seq![
                    text@.subrange(from as int, i as int),
                ] + parts_from(text@, i + 1, sep));
                assert(slices(list@) + parts_from(text@, i + 1, sep) =~= before + (seq![
                    text@.subrange(from as int, i as int),
                ] + parts_from(text@, i + 1, sep)));
            }
            from = i + 1;
        }
        if quoted {
            if escaped {
                escaped = false;
            } else if byte == 0x5c {
                escaped = true;
            } else if byte == 0x22 {
                quoted = false;
            }
        } else if byte == 0x22 {
            quoted = true;
        } else if byte == 0x7b || byte == 0x5b {
            depth += 1;
        } else if byte == 0x7d || byte == 0x5d {
            if depth > 0 {
                depth -= 1;
            }
        }
        i += 1;
    }
    let ghost before = slices(list@);
    let rest: &[u8] = &text[from..n];
    list.push(rest);
    proof {
        assert(slices(list@) =~= before + seq![text@.subrange(from as int, n as int)]);
    }
    list
}

fn find_items(text: &[u8]) -> (list: Vec<&[u8]>)
    ensures
        slices(list@) == items(text@),
{
    let from = find_solid(text);
    let to = find_solid_end(text);
    let inner: &[u8] = if from < to && from + 1 <= to - 1 {
        &text[from + 1..to - 1]
    } else {
        &text[0..0]
    };
    assert(inner@ =~= enclosed(text@));
    if find_solid(inner) == inner.len() {
        let none: Vec<&[u8]> = Vec::new();
        assert(slices(none@) =~= Seq::<Seq<u8>>::empty());
        none
    } else {
        split(inner, 0x2c)
    }
}

/// What the members of an object say of one field.
pub enum FieldRead {
    /// A member is malformed, the field occurs twice, or its value has the wrong type.
    Bad,
    /// No member bears the field's name.
    Absent,
    /// The field's value: a string, or `null`.
    Found(Option<Seq<char>>),
}

/// What the first `k` members say of the field `name`.
pub open spec fn read_field(members: Seq<Seq<u8>>, name: Seq<char>, k: int) -> FieldRead
    decreases k,
{
    if k <= 0 {
        FieldRead::Absent
    } else {
        let sides = parts(members[k - 1], 0x3a);
        match (read_field(members, name, k - 1), json_text(sides[0])) {
            (FieldRead::Bad, _) => FieldRead::Bad,
            (before, Some(key)) => if sides.len() != 2 {
                FieldRead::Bad
            } else if key != name {
                before
            } else if before is Found {
                FieldRead::Bad
            } else {
                match json_optional_text(sides[1]) {
                    Some(value) => FieldRead::Found(value),
                    None => FieldRead::Bad,
                }
            },
            (_, None) => FieldRead::Bad,
        }
    }
}

/// The field of a record that has one optional string field, read from an object by the
/// field's name, or from a list of exactly one value. `None` if `text` is no such record.
pub open spec fn record_field(text: Seq<u8>, name: Seq<char>) -> Option<Option<Seq<char>>> {
    let at = first_solid(text);
    let list = items(text);
    if at < text.len() && text[at] == 0x7b {
        match read_field(list, name, list.len() as int) {
            FieldRead::Bad => None,
            FieldRead::Absent => Some(None),
            FieldRead::Found(value) => Some(value),
        }
    } else if at < text.len() && text[at] == 0x5b && list.len() == 1 {
        json_optional_text(list[0])
    } else {
        None
    }
}

/// The record that `text` holds, if it is well-formed.
pub open spec fn record(text: Seq<u8>, name: Seq<char>) -> Option<Option<Seq<char>>> {
    if json_well_formed(text) {
        record_field(text, name)
    } else {
        None
    }
}

/// The list of records that `text` holds, if it is well-formed and each item is a record.
pub open spec fn record_list(text: Seq<u8>, name: Seq<char>) -> Option<Seq<Option<Seq<char>>>> {
    let list = items(text);
    if json_well_formed(text) && forall|i: int|
        0 <= i < list.len() ==> record_field(#[trigger] list[i], name) is Some {
        Some(list.map_values(|t: Seq<u8>| record_field(t, name)->0))
    } else {
        None
    }
}

/// A list of optional texts, by their characters.
pub open spec fn opt_texts(list: Seq<Option<String>>) -> Seq<Option<Seq<char>>> {
    list.map_values(|t: Option<String>| opt_text(t))
}

fn find_record_field(text: &[u8], name: &str) -> (field: Option<Option<String>>)
    ensures
        match field {
            Some(value) => record_field(text@, name@) == Some(opt_text(value)),
            None => record_field(text@, name@) is None,
        },
{
    let at = find_solid(text);
    let list = find_items(text);
    assert forall|j: int| 0 <= j < list@.len() implies (#[trigger] list@[j])@ == items(text@)[j] by {
        assert(slices(list@)[j] == list@[j]@);
    }
    if at < text.len() && text[at] == 0x7b {
        let mut found: Option<Option<String>> = None;
        let mut k: usize = 0;
        while k < list.len()
            invariant
                k <= list@.len(),
                list@.len() == items(text@).len(),
                forall|j: int|
                    0 <= j < list@.len() ==> (#[trigger] list@[j])@ == items(text@)[j],
                at == first_solid(text@),
                at < text@.len(),
                text@[at as int] == 0x7b,
                read_field(items(text@), name@, k as int) == (match found {
                    Some(value) => FieldRead::Found(opt_text(value)),
                    None => FieldRead::Absent,
                }),
            decreases list@.len() - k,
        {
            let sides = split(list[k], 0x3a);
            assert(slices(sides@) == parts(items(text@)[k as int], 0x3a));
            assert forall|j: int| 0 <= j < sides@.len() implies (#[trigger] sides@[j])@ == parts(
                items(text@)[k as int],
                0x3a,
            )[j] by {
                assert(slices(sides@)[j] == sides@[j]@);
            }
            if sides.len() != 2 {
                proof {
                    lemma_bad_stays(items(text@), name@, k + 1, list@.len() as int);
                }
                return None;
            }
            match decode_text(sides[0]) {
                None => {
                    proof {
                        lemma_bad_stays(items(text@), name@, k + 1, list@.len() as int);
                    }
                    return None;
                },
                Some(key) => if same_text(key.as_str(), name) {
                    if found.is_some() {
                        proof {
                            lemma_bad_stays(items(text@), name@, k + 1, list@.len() as int);
                        }
                        return None;
                    }
                    match decode_optional_text(sides[1]) {
                        None => {
                            proof {
                                lemma_bad_stays(items(text@), name@, k + 1, list@.len() as int);
                            }
                            return None;
                        },
                        Some(value) => {
                            found = Some(value);
                        },
                    }
                },
            }
            k += 1;
        }
        match found {
            Some(value) => Some(value),
            None => Some(None),
        }
    } else if at < text.len() && text[at] == 0x5b && list.len() == 1 {
        decode_optional_text(list[0])
    } else {
        None
    }
}

proof fn lemma_bad_stays(members: Seq<Seq<u8>>, name: Seq<char>, k: int, n: int)
    requires
        0 <= k <= n,
        read_field(members, name, k) is Bad,
    ensures
        read_field(members, name, n) is Bad,
    decreases n - k,
{
    if k < n {
        lemma_bad_stays(members, name, k + 1, n);
    }
}

/// Reads the field `name` of the record that `text` holds.
pub(crate) fn read_record(text: &[u8], name: &str) -> (field: Option<Option<String>>)
    ensures
        match field {
            Some(value) => record(text@, name@) == Some(opt_text(value)),
            None => record(text@, name@) is None,
        },
{
    if well_formed(text) {
        find_record_field(text, name)
    } else {
        None
    }
}

/// Reads the field `name` of each record in the list that `text` holds.
pub(crate) fn read_record_list(text: &[u8], name: &str) -> (fields: Option<Vec<Option<String>>>)
    ensures
        match fields {
            Some(values) => record_list(text@, name@) == Some(opt_texts(values@)),
            None => record_list(text@, name@) is None,
        },
{
    if !well_formed(text) {
        return None;
    }
    let list = find_items(text);
    let ghost spec_list = items(text@);
    assert forall|j: int| 0 <= j < list@.len() implies (#[trigger] list@[j])@ == spec_list[j] by {
        assert(slices(list@)[j] == list@[j]@);
    }
    let mut values: Vec<Option<String>> = Vec::new();
    let mut k: usize = 0;
    while k < list.len()
        invariant
            k <= list@.len(),
            list@.len() == spec_list.len(),
            spec_list == items(text@),
            forall|j: int| 0 <= j < list@.len() ==> (#[trigger] list@[j])@ == spec_list[j],
            values@.len() == k,
            forall|j: int|
                0 <= j < k ==> record_field(#[trigger] spec_list[j], name@) == Some(
                    opt_text(values@[j]),
                ),
        decreases list@.len() - k,
    {
        match find_record_field(list[k], name) {
            Some(value) => values.push(value),
            None => {
                assert(record_field(spec_list[k as int], name@) is None);
                return None;
            },
        }
        k += 1;
    }
    assert(opt_texts(values@) =~= spec_list.map_values(|t: Seq<u8>| record_field(t, name@)->0));
    Some(values)
}

} // verus!
