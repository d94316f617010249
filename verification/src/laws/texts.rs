//! Texts: white space, case, names, and what is rewritten of a query.

use vstd::prelude::*;
use vstd::utf8::{encode_utf8, encode_utf8_decode_utf8};

use crate::credits::borrowed_texts;
use crate::name_map::{bytes_before, lookup, name_before, NameMap};
use crate::proxy::{
    decoded_name, decoded_names, find_char, first_key, forwarded_url, joined, key_text, name_text,
    other_parts, parts_from, plain_value, query_parts, rewritten_query_text, rooted, with_key,
};
use crate::text::{ascii_lower, equal_ignoring_case, is_white, trim_end, trim_start, trimmed};

verus! {

/// Of several entries under one name, the first is the one that is found; a name without an
/// entry is not found.
pub proof fn a_name_is_looked_up_in_its_first_entry<V>(
    list: Seq<(Seq<char>, V)>,
    name: Seq<char>,
    k: int,
)
    requires
        0 <= k <= list.len(),
        forall|j: int| 0 <= j < k ==> (#[trigger] list[j]).0 != name,
        k < list.len() ==> list[k].0 == name,
    ensures
        k < list.len() ==> lookup(list, name) == Some(list[k].1),
        k == list.len() ==> lookup(list, name) is None,
    decreases k,
{
    if k > 0 {
        assert(list[0].0 != name);
        let rest = list.skip(1);
        assert forall|j: int| 0 <= j < k - 1 implies (#[trigger] rest[j]).0 != name by {
            assert(rest[j] == list[j + 1]);
        }
        a_name_is_looked_up_in_its_first_entry(rest, name, k - 1);
    }
}

/// A map knows the names that are listed in it, and holds under each what the list does.
pub proof fn a_map_holds_what_it_lists<V>(map: NameMap<V>, name: Seq<char>, i: int)
    requires
        map.well_formed(),
    ensures
        map@.contains_key(name) <==> exists|j: int|
            0 <= j < map.list().len() && (#[trigger] map.list()[j]).0 == name,
        0 <= i < map.list().len() ==> map@.contains_key(map.list()[i].0) && map@[map.list()[i].0]
            == map.list()[i].1,
{
    let list = map.list();
    if 0 <= i < list.len() {
        assert forall|j: int| 0 <= j < i implies (#[trigger] list[j]).0 != list[i].0 by {
            names_are_in_one_order(list[j].0, list[i].0, list[i].0);
        }
        a_name_is_looked_up_in_its_first_entry(list, list[i].0, i);
    }
    if exists|j: int| 0 <= j < list.len() && (#[trigger] list[j]).0 == name {
        let j = choose|j: int| 0 <= j < list.len() && (#[trigger] list[j]).0 == name;
        assert forall|m: int| 0 <= m < j implies (#[trigger] list[m]).0 != name by {
            names_are_in_one_order(list[m].0, list[j].0, list[j].0);
        }
        a_name_is_looked_up_in_its_first_entry(list, name, j);
    } else {
        a_name_is_looked_up_in_its_first_entry(list, name, list.len() as int);
    }
}

/// Names are in one order: none is before itself, of two different ones one is before the other,
/// and what is before a name is before all that the name is before.
pub proof fn names_are_in_one_order(a: Seq<char>, b: Seq<char>, c: Seq<char>)
    ensures
        !name_before(a, a),
        a != b ==> name_before(a, b) != name_before(b, a),
        name_before(a, b) && name_before(b, c) ==> name_before(a, c),
{
    let (x, y, z) = (encode_utf8(a), encode_utf8(b), encode_utf8(c));
    lemma_one_order(x, x, x);
    lemma_one_order(x, y, z);
    if x == y {
        encode_utf8_decode_utf8(a);
        encode_utf8_decode_utf8(b);
    }
}

proof fn lemma_one_order(a: Seq<u8>, b: Seq<u8>, c: Seq<u8>)
    ensures
        a == b ==> !bytes_before(a, b),
        a != b ==> bytes_before(a, b) != bytes_before(b, a),
        bytes_before(a, b) && bytes_before(b, c) ==> bytes_before(a, c),
    decreases a.len() + b.len() + c.len(),
{
    if a.len() > 0 && b.len() > 0 && a[0] == b[0] {
        let rest = if c.len() > 0 {
            c.skip(1)
        } else {
            c
        };
        lemma_one_order(a.skip(1), b.skip(1), rest);
        if a.skip(1) == b.skip(1) {
            assert(a =~= seq![a[0]] + a.skip(1));
            assert(b =~= seq![b[0]] + b.skip(1));
        }
    } else if a.len() == 0 && b.len() == 0 {
        assert(a =~= b);
    }
}

/// The first byte in which two names differ decides which is before the other; where one goes
/// on behind the end of the other, the shorter is before it.
pub proof fn the_first_difference_decides(a: Seq<u8>, b: Seq<u8>, k: int)
    requires
        0 <= k <= a.len(),
        k <= b.len(),
        forall|j: int| 0 <= j < k ==> #[trigger] a[j] == b[j],
    ensures
        k < a.len() && k < b.len() && a[k] != b[k] ==> (bytes_before(a, b) <==> a[k] < b[k]),
        k == a.len() && k < b.len() ==> bytes_before(a, b),
        k < a.len() && k == b.len() ==> !bytes_before(a, b),
    decreases k,
{
    if k > 0 {
        assert(a[0] == b[0]);
        let (x, y) = (a.skip(1), b.skip(1));
        assert forall|j: int| 0 <= j < k - 1 implies #[trigger] x[j] == y[j] by {
            assert(a[j + 1] == b[j + 1]);
        }
        the_first_difference_decides(x, y, k - 1);
        if k < a.len() {
            assert(x[k - 1] == a[k]);
        }
        if k < b.len() {
            assert(y[k - 1] == b[k]);
        }
    }
}

/// White space is what Unicode says it is.
pub proof fn white_space_is_these_characters(c: char)
    ensures
        is_white(c) <==> {
            let u = c as u32;
            ||| u == 9 || u == 10 || u == 11 || u == 12 || u == 13 || u == 32
            ||| u == 0x85 || u == 0xa0 || u == 0x1680
            ||| 0x2000 <= u <= 0x200a
            ||| u == 0x2028 || u == 0x2029 || u == 0x202f || u == 0x205f || u == 0x3000
        },
{
}

/// Trimming takes off the white space at both ends, all of it and nothing else: what is within
/// stays. Of a text of white space alone nothing is left.
pub proof fn trimming_takes_off_both_ends(before: Seq<char>, inner: Seq<char>, behind: Seq<char>)
    requires
        forall|j: int| 0 <= j < before.len() ==> is_white(#[trigger] before[j]),
        forall|j: int| 0 <= j < behind.len() ==> is_white(#[trigger] behind[j]),
        inner.len() > 0 ==> !is_white(inner[0]) && !is_white(inner.last()),
    ensures
        trimmed(before + inner + behind) == inner,
{
    let s = before + inner + behind;
    if inner.len() > 0 {
        lemma_start(s, before.len() as int);
        assert(s.skip(before.len() as int) =~= inner + behind);
        lemma_end(inner + behind, inner.len() as int);
        assert((inner + behind).take(inner.len() as int) =~= inner);
    } else {
        lemma_start(s, s.len() as int);
        assert(s.skip(s.len() as int) =~= inner);
    }
}

/// A text is blank, that is nothing is left of it when it is trimmed, if and only if all of it
/// is white space.
pub proof fn a_blank_text_is_white_space_alone(s: Seq<char>)
    ensures
        trimmed(s).len() == 0 <==> forall|j: int| 0 <= j < s.len() ==> is_white(#[trigger] s[j]),
    decreases s.len(),
{
    if s.len() == 0 {
    } else if is_white(s[0]) {
        let rest = s.skip(1);
        a_blank_text_is_white_space_alone(rest);
        assert(trimmed(s) == trimmed(rest));
        if forall|j: int| 0 <= j < rest.len() ==> is_white(#[trigger] rest[j]) {
            assert forall|j: int| 0 <= j < s.len() implies is_white(#[trigger] s[j]) by {
                if j > 0 {
                    assert(rest[j - 1] == s[j]);
                }
            }
        } else {
            let j = choose|j: int| 0 <= j < rest.len() && !is_white(#[trigger] rest[j]);
            assert(s[j + 1] == rest[j]);
        }
    } else {
        lemma_end_keeps_solid(s, 0);
    }
}

proof fn lemma_end_keeps_solid(s: Seq<char>, k: int)
    requires
        0 <= k < s.len(),
        !is_white(s[k]),
    ensures
        trim_end(s).len() > k,
    decreases s.len(),
{
    if is_white(s.last()) {
        lemma_end_keeps_solid(s.drop_last(), k);
    }
}

proof fn lemma_start(s: Seq<char>, k: int)
    requires
        0 <= k <= s.len(),
        forall|j: int| 0 <= j < k ==> is_white(#[trigger] s[j]),
        k < s.len() ==> !is_white(s[k]),
    ensures
        trim_start(s) == s.skip(k),
    decreases k,
{
    if k > 0 {
        assert(is_white(s[0]));
        let t = s.skip(1);
        assert forall|j: int| 0 <= j < k - 1 implies is_white(#[trigger] t[j]) by {
            assert(t[j] == s[j + 1]);
        }
        lemma_start(t, k - 1);
        assert(t.skip(k - 1) =~= s.skip(k));
    } else {
        assert(s.skip(0) =~= s);
    }
}

proof fn lemma_end(s: Seq<char>, k: int)
    requires
        0 < k <= s.len(),
        forall|j: int| k <= j < s.len() ==> is_white(#[trigger] s[j]),
        !is_white(s[k - 1]),
    ensures
        trim_end(s) == s.take(k),
    decreases s.len(),
{
    if k < s.len() {
        assert(is_white(s[s.len() - 1]));
        lemma_end(s.drop_last(), k);
        assert(s.drop_last().take(k) =~= s.take(k));
    } else {
        assert(s.take(k) =~= s);
    }
}

/// Only the letters from `A` to `Z` have another form in lower case, 32 places on. Two texts
/// are equal but for the case if and only if they are of one length and at each place equal or
/// two forms of one letter.
pub proof fn case_is_that_of_ascii_letters(c: char, a: Seq<char>, b: Seq<char>)
    ensures
        65 <= c as u32 <= 90 ==> ascii_lower(c) as u32 == c as u32 + 32,
        !(65 <= c as u32 <= 90) ==> ascii_lower(c) == c,
        equal_ignoring_case(a, b) <==> a.len() == b.len() && forall|i: int|
            0 <= i < a.len() ==> {
                ||| #[trigger] a[i] == b[i]
                ||| 65 <= a[i] as u32 <= 90 && b[i] as u32 == a[i] as u32 + 32
                ||| 65 <= b[i] as u32 <= 90 && a[i] as u32 == b[i] as u32 + 32
            },
{
    if a.len() == b.len() {
        assert forall|i: int| 0 <= i < a.len() implies (ascii_lower(#[trigger] a[i]) == ascii_lower(
            b[i],
        ) <==> {
            ||| a[i] == b[i]
            ||| 65 <= a[i] as u32 <= 90 && b[i] as u32 == a[i] as u32 + 32
            ||| 65 <= b[i] as u32 <= 90 && a[i] as u32 == b[i] as u32 + 32
        }) by {
            lemma_lower(a[i]);
            lemma_lower(b[i]);
        }
    }
    lemma_lower(c);
}

proof fn lemma_lower(c: char)
    ensures
        65 <= c as u32 <= 90 ==> ascii_lower(c) as u32 == c as u32 + 32,
        !(65 <= c as u32 <= 90) ==> ascii_lower(c) == c,
{
}

/// Texts are listed one for one.
pub proof fn texts_are_listed_one_for_one(list: Seq<&str>, i: int)
    requires
        0 <= i < list.len(),
    ensures
        borrowed_texts(list).len() == list.len(),
        borrowed_texts(list)[i] == list[i]@,
{
}

/// Parts are joined by one `&` between each two of them.
pub proof fn parts_are_joined_by_one_sign(parts: Seq<Seq<char>>, part: Seq<char>)
    ensures
        joined(Seq::empty()) == Seq::<char>::empty(),
        joined(seq![part]) == part,
        parts.len() > 0 ==> joined(parts.push(part)) == joined(parts).push('&') + part,
{
    reveal_strlit("&");
    assert(parts.push(part).drop_last() =~= parts);
    if parts.len() > 0 {
        assert(joined(parts) + "&"@ =~= joined(parts).push('&'));
    }
}

/// Taking a query apart and joining the parts are inverse to each other: no part holds a `&`,
/// joined they are the query, and parts without a `&` come out of their query as they are.
pub proof fn taking_apart_and_joining_are_inverse(query: Seq<char>, parts: Seq<Seq<char>>, i: int)
    ensures
        joined(query_parts(query)) == query,
        0 <= i < query_parts(query).len() ==> !query_parts(query)[i].contains('&'),
        (forall|j: int| 0 <= j < parts.len() ==> !(#[trigger] parts[j]).contains('&'))
            && joined(parts).len() > 0 ==> query_parts(joined(parts)) == parts,
{
    if query.len() > 0 {
        lemma_apart(query, 0);
        assert(query.subrange(0, query.len() as int) =~= query);
    }
    if (forall|j: int| 0 <= j < parts.len() ==> !(#[trigger] parts[j]).contains('&'))
        && joined(parts).len() > 0 {
        lemma_together(parts);
    }
}

proof fn lemma_find(s: Seq<char>, c: char, from: int)
    requires
        0 <= from <= s.len(),
    ensures
        from <= find_char(s, c, from) <= s.len(),
        find_char(s, c, from) < s.len() ==> s[find_char(s, c, from)] == c,
        forall|j: int| from <= j < find_char(s, c, from) ==> #[trigger] s[j] != c,
    decreases s.len() - from,
{
    if from < s.len() && s[from] != c {
        lemma_find(s, c, from + 1);
    }
}

proof fn lemma_found(s: Seq<char>, c: char, from: int, k: int)
    requires
        0 <= from <= k <= s.len(),
        k < s.len() ==> s[k] == c,
        forall|j: int| from <= j < k ==> #[trigger] s[j] != c,
    ensures
        find_char(s, c, from) == k,
    decreases k - from,
{
    if from < k {
        assert(s[from] != c);
        lemma_found(s, c, from + 1, k);
    }
}

proof fn lemma_apart(query: Seq<char>, from: int)
    requires
        0 <= from <= query.len(),
    ensures
        parts_from(query, from).len() > 0,
        joined(parts_from(query, from)) == query.subrange(from, query.len() as int),
        forall|i: int|
            0 <= i < parts_from(query, from).len() ==> !(#[trigger] parts_from(
                query,
                from,
            )[i]).contains('&'),
    decreases query.len() - from,
{
    reveal_strlit("&");
    let cut = find_char(query, '&', from);
    lemma_find(query, '&', from);
    let all = parts_from(query, from);
    let end = query.len() as int;
    if cut < end {
        let head = query.subrange(from, cut);
        let rest = parts_from(query, cut + 1);
        lemma_apart(query, cut + 1);
        assert(all == seq![head] + rest);
        lemma_joined_front(head, rest);
        assert(head + "&"@ + query.subrange(cut + 1, end) =~= query.subrange(from, end));
        assert forall|i: int| 0 <= i < all.len() implies !(#[trigger] all[i]).contains('&') by {
            if i == 0 {
                if head.contains('&') {
                    let j = choose|j: int| 0 <= j < head.len() && head[j] == '&';
                    assert(query[from + j] == '&');
                }
            } else {
                assert(all[i] == rest[i - 1]);
            }
        }
    } else {
        let head = query.subrange(from, end);
        assert(all == seq![head]);
        if head.contains('&') {
            let j = choose|j: int| 0 <= j < head.len() && head[j] == '&';
            assert(query[from + j] == '&');
        }
    }
}

proof fn lemma_joined_front(head: Seq<char>, rest: Seq<Seq<char>>)
    requires
        rest.len() > 0,
    ensures
        joined(seq![head] + rest) == head + "&"@ + joined(rest),
    decreases rest.len(),
{
    let all = seq![head] + rest;
    if rest.len() == 1 {
        assert(all.drop_last() =~= seq![head]);
        assert(joined(seq![head]) == head);
    } else {
        lemma_joined_front(head, rest.drop_last());
        assert(all.drop_last() =~= seq![head] + rest.drop_last());
        assert(joined(all) =~= head + "&"@ + joined(rest));
    }
}

proof fn lemma_one_part(part: Seq<char>)
    requires
        !part.contains('&'),
    ensures
        parts_from(part, 0) == seq![part],
{
    assert forall|j: int| 0 <= j < part.len() implies #[trigger] part[j] != '&' by {
        if part[j] == '&' {
            assert(part.contains('&'));
        }
    }
    lemma_found(part, '&', 0, part.len() as int);
    assert(part.subrange(0, part.len() as int) =~= part);
}

proof fn lemma_one_more_part(s: Seq<char>, part: Seq<char>, from: int)
    requires
        0 <= from <= s.len(),
        !part.contains('&'),
    ensures
        parts_from(s + "&"@ + part, from) == parts_from(s, from).push(part),
    decreases s.len() - from,
{
    reveal_strlit("&");
    let t = s + "&"@ + part;
    let cut = find_char(s, '&', from);
    lemma_find(s, '&', from);
    assert(t[s.len() as int] == '&');
    assert forall|j: int| from <= j < cut implies #[trigger] t[j] != '&' by {
        assert(t[j] == s[j]);
    }
    lemma_found(t, '&', from, cut);
    assert(t.subrange(from, cut) =~= s.subrange(from, cut));
    if cut < s.len() {
        lemma_one_more_part(s, part, cut + 1);
        assert(parts_from(t, from) =~= parts_from(s, from).push(part));
    } else {
        let next = s.len() + 1;
        assert forall|j: int| next <= j < t.len() implies #[trigger] t[j] != '&' by {
            assert(t[j] == part[j - next]);
            if t[j] == '&' {
                assert(part.contains('&'));
            }
        }
        lemma_found(t, '&', next as int, t.len() as int);
        assert(t.subrange(next as int, t.len() as int) =~= part);
        assert(parts_from(t, next as int) == seq![part]);
        assert(parts_from(t, from) =~= parts_from(s, from).push(part));
    }
}

proof fn lemma_together(parts: Seq<Seq<char>>)
    requires
        parts.len() > 0,
        forall|j: int| 0 <= j < parts.len() ==> !(#[trigger] parts[j]).contains('&'),
    ensures
        parts_from(joined(parts), 0) == parts,
    decreases parts.len(),
{
    let last = parts[parts.len() - 1];
    if parts.len() == 1 {
        lemma_one_part(parts[0]);
        assert(parts =~= seq![parts[0]]);
    } else {
        let before = parts.drop_last();
        assert forall|j: int| 0 <= j < before.len() implies !(#[trigger] before[j]).contains(
            '&',
        ) by {
            assert(parts[j] == before[j]);
        }
        lemma_together(before);
        lemma_one_more_part(joined(before), last, 0);
        assert(before.push(last) =~= parts);
    }
}

/// The name that a part sets is what stands before its first `=`, or all of it where there is
/// none. Where nothing in it is escaped it is taken as it stands.
pub proof fn a_name_ends_at_the_first_equals_sign(name: Seq<char>, value: Seq<char>)
    requires
        !name.contains('='),
    ensures
        name_text(name.push('=') + value) == name,
        name_text(name) == name,
        !name.contains('%') && !name.contains('+') ==> decoded_name(name.push('=') + value) == name
            && decoded_name(name) == name,
{
    let part = name.push('=') + value;
    let k = name.len() as int;
    assert forall|j: int| 0 <= j < k implies #[trigger] name[j] != '=' by {
        if name[j] == '=' {
            assert(name.contains('='));
        }
    }
    assert forall|j: int| 0 <= j < k implies #[trigger] part[j] != '=' by {
        assert(part[j] == name[j]);
    }
    assert(part[k] == '=');
    lemma_found(part, '=', 0, k);
    lemma_found(name, '=', 0, k);
    assert(part.take(k) =~= name);
    assert(name.take(k) =~= name);
}

/// Names are decoded one for one.
pub proof fn names_are_decoded_one_for_one(parts: Seq<Seq<char>>, i: int)
    requires
        0 <= i < parts.len(),
    ensures
        decoded_names(parts).len() == parts.len(),
        decoded_names(parts)[i] == decoded_name(parts[i]),
{
}

/// A key of letters, digits, asterisks, hyphens, dots and underscores is presented as it is.
pub proof fn a_plain_key_is_presented_as_it_is(key: Seq<char>)
    requires
        forall|i: int|
            0 <= i < key.len() ==> {
                let c = #[trigger] key[i];
                c == '*' || c == '-' || c == '.' || c == '_' || 'a' <= c <= 'z' || 'A' <= c <= 'Z'
                    || '0' <= c <= '9'
            },
    ensures
        key_text(key) == "api-key="@ + key,
        decoded_name(key_text(key)) == "api-key"@,
        !key_text(key).contains('&'),
{
    reveal_strlit("api-key");
    reveal_strlit("api-key=");
    let name = "api-key"@;
    assert(plain_value(key));
    assert(name.push('=') + key =~= "api-key="@ + key);
    a_name_ends_at_the_first_equals_sign(name, key);
    assert forall|j: int| 0 <= j < key_text(key).len() implies #[trigger] key_text(key)[j] != '&' by {
        if j >= 8 {
            assert(key_text(key)[j] == key[j - 8]);
        }
    }
}

/// The key replaces the first part that sets the api-key; before it nothing changes, and behind
/// it all parts stay, in order, that set something else. Where no part sets it, it comes last.
pub proof fn the_key_takes_the_place_of_the_first(
    parts: Seq<Seq<char>>,
    names: Seq<Seq<char>>,
    key_part: Seq<char>,
    k: int,
)
    requires
        names.len() == parts.len(),
        0 <= k <= parts.len(),
        forall|j: int| 0 <= j < k ==> #[trigger] names[j] != "api-key"@,
        k < parts.len() ==> names[k] == "api-key"@,
    ensures
        k == parts.len() ==> with_key(parts, names, key_part) == parts.push(key_part),
        k < parts.len() ==> with_key(parts, names, key_part) == parts.take(k) + seq![key_part]
            + Seq::new((parts.len() - k - 1) as nat, |i: int| k + 1 + i).filter(
            |i: int| names[i] != "api-key"@,
        ).map_values(|i: int| parts[i]),
{
    lemma_key_place(names, k);
    if k < parts.len() {
        lemma_others_filtered(parts, names, k + 1, parts.len() as int);
        assert(parts.take(k).push(key_part) =~= parts.take(k) + seq![key_part]);
    }
}

proof fn lemma_key_place(names: Seq<Seq<char>>, k: int)
    requires
        0 <= k <= names.len(),
        forall|j: int| 0 <= j < k ==> #[trigger] names[j] != "api-key"@,
        k < names.len() ==> names[k] == "api-key"@,
    ensures
        first_key(names) == k,
    decreases k,
{
    if k > 0 {
        assert(names[0] != "api-key"@);
        let rest = names.skip(1);
        assert forall|j: int| 0 <= j < k - 1 implies #[trigger] rest[j] != "api-key"@ by {
            assert(rest[j] == names[j + 1]);
        }
        lemma_key_place(rest, k - 1);
    }
}

proof fn lemma_others_filtered(
    parts: Seq<Seq<char>>,
    names: Seq<Seq<char>>,
    from: int,
    to: int,
)
    requires
        0 <= from <= to <= parts.len(),
    ensures
        other_parts(parts, names, from, to) == Seq::new((to - from) as nat, |i: int| from + i).filter(
            |i: int| names[i] != "api-key"@,
        ).map_values(|i: int| parts[i]),
    decreases to - from,
{
    reveal(Seq::filter);
    let other = |i: int| names[i] != "api-key"@;
    let part = |i: int| parts[i];
    let places = Seq::new((to - from) as nat, |i: int| from + i);
    if to > from {
        lemma_others_filtered(parts, names, from, to - 1);
        let fewer = Seq::new((to - 1 - from) as nat, |i: int| from + i);
        assert(places.drop_last() =~= fewer);
        assert(places.last() == to - 1);
        if names[to - 1] != "api-key"@ {
            assert(fewer.filter(other).push(to - 1).map_values(part) =~= fewer.filter(
                other,
            ).map_values(part).push(parts[to - 1]));
        }
    }
    assert(other_parts(parts, names, from, to) =~= places.filter(other).map_values(part));
}

/// Of a query in which one parameter sets the api-key, that one is replaced where it stands, and
/// every other is forwarded as it came in, character by character.
pub proof fn all_but_the_key_is_forwarded_as_it_came(
    parts: Seq<Seq<char>>,
    k: int,
    key: Seq<char>,
)
    requires
        0 <= k < parts.len(),
        forall|j: int| 0 <= j < parts.len() ==> !(#[trigger] parts[j]).contains('&'),
        decoded_name(parts[k]) == "api-key"@,
        forall|j: int|
            0 <= j < parts.len() && j != k ==> decoded_name(#[trigger] parts[j]) != "api-key"@,
    ensures
        rewritten_query_text(Some(joined(parts)), key) == joined(
            parts.update(k, key_text(key)),
        ),
{
    reveal_strlit("api-key");
    assert("api-key"@.len() == 7);
    let part = key_text(key);
    lemma_joined_nonempty(parts, k);
    lemma_together(parts);
    let names = decoded_names(parts);
    lemma_key_place(names, k);
    lemma_rest_stays(parts, names, k + 1, parts.len() as int);
    assert(with_key(parts, names, part) =~= parts.update(k, part));
}

/// To a query in which no parameter sets the api-key, the key is added behind a `&`, and all the
/// rest is forwarded as it came in. Without a query, or with an empty one, the key is the query.
pub proof fn a_missing_key_is_added_at_the_end(query: Seq<char>, key: Seq<char>)
    requires
        forall|j: int|
            0 <= j < query_parts(query).len() ==> decoded_name(#[trigger] query_parts(query)[j])
                != "api-key"@,
    ensures
        query.len() > 0 ==> rewritten_query_text(Some(query), key) == query.push('&') + key_text(
            key,
        ),
        rewritten_query_text(Some(Seq::empty()), key) == key_text(key),
        rewritten_query_text(None, key) == key_text(key),
{
    let part = key_text(key);
    let own = query_parts(query);
    if query.len() > 0 {
        lemma_key_place(decoded_names(own), own.len() as int);
        taking_apart_and_joining_are_inverse(query, own, 0);
        lemma_apart(query, 0);
        parts_are_joined_by_one_sign(own, part);
    }
    let none = Seq::<Seq<char>>::empty();
    assert(decoded_names(none) =~= none);
    assert(with_key(none, decoded_names(none), part) =~= seq![part]);
    assert(joined(seq![part]) == part);
}

/// Only the last key counts: a query that is rewritten for one key and then for another is what
/// it is when rewritten for the other alone. For the same key a second time changes nothing.
pub proof fn only_the_last_key_counts(query: Seq<char>, first: Seq<char>, second: Seq<char>)
    requires
        plain_value(first),
    ensures
        rewritten_query_text(Some(rewritten_query_text(Some(query), first)), second)
            == rewritten_query_text(Some(query), second),
{
    let parts = query_parts(query);
    let names = decoded_names(parts);
    let (x, y) = (key_text(first), key_text(second));
    let once = with_key(parts, names, x);
    let k = lemma_where_the_key_is(names);
    let n = parts.len() as int;
    a_plain_key_is_presented_as_it_is(first);
    reveal_strlit("api-key=");
    if query.len() > 0 {
        lemma_apart(query, 0);
    }
    if k < n {
        lemma_others_are_others(parts, names, k + 1, n);
    }
    assert forall|j: int| 0 <= j < once.len() implies !(#[trigger] once[j]).contains('&') && (j != k
        ==> decoded_name(once[j]) != "api-key"@) by {
        if j < k {
            assert(once[j] == parts[j]);
            assert(names[j] == decoded_name(parts[j]));
        } else if j > k {
            let tail = other_parts(parts, names, k + 1, n);
            assert(once[j] == tail[j - k - 1]);
        }
    }
    assert(once[k] == x);
    all_but_the_key_is_forwarded_as_it_came(once, k, second);
    assert(once.update(k, y) =~= with_key(parts, names, y));
}

proof fn lemma_where_the_key_is(names: Seq<Seq<char>>) -> (k: int)
    ensures
        0 <= k <= names.len(),
        k == first_key(names),
        forall|j: int| 0 <= j < k ==> #[trigger] names[j] != "api-key"@,
        k < names.len() ==> names[k] == "api-key"@,
    decreases names.len(),
{
    if names.len() == 0 || names[0] == "api-key"@ {
        0
    } else {
        let rest = names.skip(1);
        let k = lemma_where_the_key_is(rest);
        assert forall|j: int| 0 <= j < k + 1 implies #[trigger] names[j] != "api-key"@ by {
            if j > 0 {
                assert(rest[j - 1] == names[j]);
            }
        }
        k + 1
    }
}

proof fn lemma_others_are_others(
    parts: Seq<Seq<char>>,
    names: Seq<Seq<char>>,
    from: int,
    to: int,
)
    requires
        0 <= from <= to <= parts.len(),
        names == decoded_names(parts),
        forall|j: int| 0 <= j < parts.len() ==> !(#[trigger] parts[j]).contains('&'),
    ensures
        forall|j: int|
            0 <= j < other_parts(parts, names, from, to).len() ==> !(#[trigger] other_parts(
                parts,
                names,
                from,
                to,
            )[j]).contains('&') && decoded_name(other_parts(parts, names, from, to)[j])
                != "api-key"@,
    decreases to - from,
{
    if to > from {
        lemma_others_are_others(parts, names, from, to - 1);
        assert(names[to - 1] == decoded_name(parts[to - 1]));
        assert(!parts[to - 1].contains('&'));
        let before = other_parts(parts, names, from, to - 1);
        let all = other_parts(parts, names, from, to);
        assert forall|j: int| 0 <= j < all.len() implies !(#[trigger] all[j]).contains('&')
            && decoded_name(all[j]) != "api-key"@ by {
            if j < before.len() {
                assert(all[j] == before[j]);
            }
        }
    }
}

proof fn lemma_rest_stays(parts: Seq<Seq<char>>, names: Seq<Seq<char>>, from: int, to: int)
    requires
        0 <= from <= to <= parts.len(),
        forall|j: int| from <= j < to ==> #[trigger] names[j] != "api-key"@,
    ensures
        other_parts(parts, names, from, to) == parts.subrange(from, to),
    decreases to - from,
{
    if to > from {
        lemma_rest_stays(parts, names, from, to - 1);
        assert(names[to - 1] != "api-key"@);
        assert(parts.subrange(from, to) =~= parts.subrange(from, to - 1).push(parts[to - 1]));
    } else {
        assert(parts.subrange(from, to) =~= Seq::<Seq<char>>::empty());
    }
}

proof fn lemma_joined_nonempty(parts: Seq<Seq<char>>, k: int)
    requires
        0 <= k < parts.len(),
        parts[k].len() > 0 || parts.len() > 1,
    ensures
        joined(parts).len() > 0,
{
    reveal_strlit("&");
}

/// A forwarded URL is the front, the path behind one slash at its beginning, a `?`, and the
/// query.
pub proof fn a_forwarded_url_in_its_order(
    front: Seq<char>,
    path: Seq<char>,
    query: Option<Seq<char>>,
    key: Seq<char>,
)
    ensures
        forwarded_url(front, path.insert(0, '/'), query, key) == (front.push('/') + path).push('?')
            + rewritten_query_text(query, key),
        path.len() == 0 || path[0] != '/' ==> forwarded_url(front, path, query, key) == forwarded_url(
            front,
            path.insert(0, '/'),
            query,
            key,
        ),
{
    reveal_strlit("/");
    reveal_strlit("?");
    let slashed = path.insert(0, '/');
    assert(slashed[0] == '/');
    assert("/"@ + path =~= slashed);
    assert(front + rooted(slashed) + "?"@ =~= (front.push('/') + path).push('?'));
}

} // verus!
