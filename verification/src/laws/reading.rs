//! How a request is read, and what it costs.

use vstd::prelude::*;

use crate::config::RpsConfig;
use crate::credits::{
    batch_calls, calls_class, calls_cost, calls_in, class_of, leading_byte, present, rest_path,
    single_calls, strictest, tallied, texts, total_cost, Calls, CostTable, MethodClass, Parsed,
};
use crate::json::{
    enclosed, first_solid, is_space, items, json_optional_text, json_text, json_well_formed,
    next_separator, opt_text, opt_texts, parts, parts_from, read_field, record, record_field,
    record_list, scan_at, separates, solid_end, FieldRead, Scan,
};
use crate::ratelimit::configured_rps;

verus! {

/// Of a decoded batch, the method of every call that has one is kept, in order, repeats and
/// all; a batch without any is no JSON-RPC, and neither is a body that does not decode.
pub proof fn every_call_of_a_batch_is_read(list: Seq<Option<Seq<char>>>)
    ensures
        present(list) == list.filter(|t: Option<Seq<char>>| t is Some).map_values(
            |t: Option<Seq<char>>| t->0,
        ),
        batch_calls(Some(list)) == (if list.contains(None) && list.filter(
            |t: Option<Seq<char>>| t is Some,
        ).len() == 0 || list.len() == 0 {
            Calls::NonJsonRpc
        } else {
            Calls::Batch(
                list.filter(|t: Option<Seq<char>>| t is Some).map_values(
                    |t: Option<Seq<char>>| t->0,
                ),
            )
        }),
        batch_calls(None) == Calls::NonJsonRpc,
    decreases list.len(),
{
    lemma_present(list);
    reveal(Seq::filter);
    let kept = list.filter(|t: Option<Seq<char>>| t is Some);
    if kept.len() == 0 && list.len() > 0 {
        if list.last() is None {
            assert(list[list.len() - 1] == None::<Seq<char>>);
        }
    }
}

proof fn lemma_present(list: Seq<Option<Seq<char>>>)
    ensures
        present(list) == list.filter(|t: Option<Seq<char>>| t is Some).map_values(
            |t: Option<Seq<char>>| t->0,
        ),
    decreases list.len(),
{
    reveal(Seq::filter);
    let is_there = |t: Option<Seq<char>>| t is Some;
    let text = |t: Option<Seq<char>>| t->0;
    if list.len() > 0 {
        lemma_present(list.drop_last());
        let before = list.drop_last().filter(is_there);
        if list.last() is Some {
            assert(before.push(list.last()).map_values(text) =~= before.map_values(text).push(
                list.last()->0,
            ));
        }
    }
    assert(present(list) =~= list.filter(is_there).map_values(text));
}

/// A body of one call comes to the method of the call, and to no JSON-RPC where there is none.
pub proof fn a_single_call_is_read(call: Option<Option<Seq<char>>>, method: Seq<char>)
    ensures
        single_calls(Some(Some(method))) == Calls::Single(method),
        !(call matches Some(m) && m is Some) ==> single_calls(call) == Calls::NonJsonRpc,
{
}

/// A batch costs the sum of what its calls cost, one by one; a single call costs what it does
/// in a batch of its own; and what is no JSON-RPC costs the configured amount.
pub proof fn a_request_costs_the_sum_of_its_calls(
    methods: Seq<Seq<char>>,
    method: Seq<char>,
    t: CostTable,
)
    ensures
        calls_cost(Calls::Batch(methods), &t) == methods.fold_left(
            0int,
            |sum: int, m: Seq<char>| sum + t.cost(m),
        ),
        calls_cost(Calls::Batch(methods.push(method)), &t) == calls_cost(
            Calls::Batch(methods),
            &t,
        ) + t.cost(method),
        calls_cost(Calls::Single(method), &t) == t.cost(method),
        calls_cost(Calls::Single(method), &t) == calls_cost(Calls::Batch(seq![method]), &t),
        calls_cost(Calls::NonJsonRpc, &t) == t.rest_cost(),
{
    lemma_sum(methods, t);
    assert(methods.push(method).drop_last() =~= methods);
    reveal_with_fuel(total_cost, 2);
    assert(seq![method].drop_last() =~= Seq::<Seq<char>>::empty());
}

proof fn lemma_sum(methods: Seq<Seq<char>>, t: CostTable)
    ensures
        total_cost(methods, &t) == methods.fold_left(
            0int,
            |sum: int, m: Seq<char>| sum + t.cost(m),
        ),
    decreases methods.len(),
{
    if methods.len() > 0 {
        lemma_sum(methods.drop_last(), t);
    }
}

/// Read from its bytes, a well-formed batch costs what its calls with a method cost together,
/// and counts as a class that none of them is stricter than.
pub proof fn a_batch_body_costs_all_its_calls(
    path: Seq<char>,
    body: Seq<u8>,
    list: Seq<Option<Seq<char>>>,
    t: CostTable,
)
    requires
        calls_in(path, body) == batch_calls(Some(list)),
        list.filter(|c: Option<Seq<char>>| c is Some).len() > 0,
    ensures
        calls_cost(calls_in(path, body), &t) == list.filter(
            |c: Option<Seq<char>>| c is Some,
        ).map_values(|c: Option<Seq<char>>| c->0).fold_left(
            0int,
            |sum: int, m: Seq<char>| sum + t.cost(m),
        ),
{
    every_call_of_a_batch_is_read(list);
    lemma_present(list);
    lemma_sum(present(list), t);
}

/// A batch counts as the class of its first call among those of the strictest limit; a single
/// call counts as its own class; and what is no JSON-RPC as a standard call.
pub proof fn a_request_counts_as_its_strictest_call(methods: Seq<Seq<char>>, method: Seq<char>)
    ensures
        calls_class(Calls::Single(method)) == class_of(method),
        calls_class(Calls::Batch(seq![method])) == class_of(method),
        calls_class(Calls::NonJsonRpc) == MethodClass::StandardRpc,
        calls_class(Calls::Batch(Seq::empty())) == MethodClass::StandardRpc,
        methods.len() > 0 ==> exists|i: int|
            0 <= i < methods.len() && class_of(#[trigger] methods[i]) == calls_class(
                Calls::Batch(methods),
            ) && forall|j: int|
                0 <= j < methods.len() ==> (if j < i {
                    class_of(methods[i]).rank() < class_of(#[trigger] methods[j]).rank()
                } else {
                    class_of(methods[i]).rank() <= class_of(methods[j]).rank()
                }),
    decreases methods.len(),
{
    if methods.len() == 1 {
        assert(class_of(methods[0]) == strictest(methods));
    } else if methods.len() > 1 {
        let before = methods.drop_last();
        a_request_counts_as_its_strictest_call(before, method);
        let i = choose|i: int|
            0 <= i < before.len() && class_of(#[trigger] before[i]) == strictest(before)
                && forall|j: int|
                0 <= j < before.len() ==> (if j < i {
                    class_of(before[i]).rank() < class_of(#[trigger] before[j]).rank()
                } else {
                    class_of(before[i]).rank() <= class_of(before[j]).rank()
                });
        assert forall|j: int| 0 <= j < before.len() implies before[j] == methods[j] by {}
        let last = methods.len() - 1;
        if class_of(methods[last]).rank() < class_of(methods[i]).rank() {
            assert(class_of(methods[last]) == strictest(methods));
            assert forall|j: int| 0 <= j < last implies class_of(methods[last]).rank() < class_of(
                #[trigger] methods[j],
            ).rank() by {
                assert(before[j] == methods[j]);
            }
        } else {
            assert(class_of(methods[i]) == strictest(methods));
            assert forall|j: int| 0 <= j < methods.len() implies (if j < i {
                class_of(methods[i]).rank() < class_of(#[trigger] methods[j]).rank()
            } else {
                class_of(methods[i]).rank() <= class_of(methods[j]).rank()
            }) by {
                if j < last {
                    assert(before[j] == methods[j]);
                }
            }
        }
    }
}

/// One class is stricter than another if and only if the free tier allows fewer requests of it
/// per second; a call of the cheap classes costs one credit, of the others ten.
pub proof fn strictness_follows_the_free_tier(a: MethodClass, b: MethodClass, rps: RpsConfig)
    requires
        rps.standard_rpc == 10,
        rps.send_transaction == 1,
        rps.get_program_accounts == 5,
        rps.das == 2,
        rps.zk == 2,
    ensures
        a.rank() < b.rank() <==> configured_rps(&rps, a) < configured_rps(&rps, b),
        a.credits() == (if a == MethodClass::StandardRpc || a == MethodClass::SendTransaction {
            1u32
        } else {
            10u32
        }),
{
}

/// Which methods are of which class. Every method that is not named is a standard call.
pub proof fn methods_are_classified_by_name(name: Seq<char>)
    ensures
        class_of(name) == MethodClass::SendTransaction <==> name == "sendTransaction"@,
        class_of(name) == MethodClass::GetProgramAccounts <==> name == "getProgramAccounts"@,
        class_of("getAsset"@) == MethodClass::Das,
        class_of("getAssetBatch"@) == MethodClass::Das,
        class_of("getAssetProof"@) == MethodClass::Das,
        class_of("getAssetProofBatch"@) == MethodClass::Das,
        class_of("getAssetsByOwner"@) == MethodClass::Das,
        class_of("getAssetsByAuthority"@) == MethodClass::Das,
        class_of("getAssetsByCreator"@) == MethodClass::Das,
        class_of("getAssetsByGroup"@) == MethodClass::Das,
        class_of("searchAssets"@) == MethodClass::Das,
        class_of("getSignaturesForAsset"@) == MethodClass::Das,
        class_of("getTokenAccounts"@) == MethodClass::Das,
        class_of("getNftEditions"@) == MethodClass::Das,
        class_of("getCompressedAccount"@) == MethodClass::Zk,
        class_of("getCompressedAccountProof"@) == MethodClass::Zk,
        class_of("getCompressedAccountsByOwner"@) == MethodClass::Zk,
        class_of("getCompressedBalance"@) == MethodClass::Zk,
        class_of("getCompressedBalanceByOwner"@) == MethodClass::Zk,
        class_of("getCompressedTokenAccountsByOwner"@) == MethodClass::Zk,
        class_of("getCompressedTokenAccountBalance"@) == MethodClass::Zk,
        class_of("getValidityProof"@) == MethodClass::Zk,
        class_of("getValidityProofs"@) == MethodClass::Zk,
        class_of("getMultipleCompressedAccounts"@) == MethodClass::Zk,
        class_of(name) == MethodClass::Das ==> name == "getAsset"@ || name == "getAssetBatch"@
            || name == "getAssetProof"@ || name == "getAssetProofBatch"@ || name
            == "getAssetsByOwner"@ || name == "getAssetsByAuthority"@ || name
            == "getAssetsByCreator"@ || name == "getAssetsByGroup"@ || name == "searchAssets"@
            || name == "getSignaturesForAsset"@ || name == "getTokenAccounts"@ || name
            == "getNftEditions"@,
        class_of(name) == MethodClass::Zk ==> name == "getCompressedAccount"@ || name
            == "getCompressedAccountProof"@ || name == "getCompressedAccountsByOwner"@ || name
            == "getCompressedBalance"@ || name == "getCompressedBalanceByOwner"@ || name
            == "getCompressedTokenAccountsByOwner"@ || name == "getCompressedTokenAccountBalance"@
            || name == "getValidityProof"@ || name == "getValidityProofs"@ || name
            == "getMultipleCompressedAccounts"@,
{
    reveal_strlit("sendTransaction");
    reveal_strlit("getProgramAccounts");
    reveal_strlit("getAsset");
    reveal_strlit("getAssetBatch");
    reveal_strlit("getAssetProof");
    reveal_strlit("getAssetProofBatch");
    reveal_strlit("getAssetsByOwner");
    reveal_strlit("getAssetsByAuthority");
    reveal_strlit("getAssetsByCreator");
    reveal_strlit("getAssetsByGroup");
    reveal_strlit("searchAssets");
    reveal_strlit("getSignaturesForAsset");
    reveal_strlit("getTokenAccounts");
    reveal_strlit("getNftEditions");
    reveal_strlit("getCompressedAccount");
    reveal_strlit("getCompressedAccountProof");
    reveal_strlit("getCompressedAccountsByOwner");
    reveal_strlit("getCompressedBalance");
    reveal_strlit("getCompressedBalanceByOwner");
    reveal_strlit("getCompressedTokenAccountsByOwner");
    reveal_strlit("getCompressedTokenAccountBalance");
    reveal_strlit("getValidityProof");
    reveal_strlit("getValidityProofs");
    reveal_strlit("getMultipleCompressedAccounts");
    lemma_told_apart();
}

proof fn lemma_told_apart()
    ensures
        "sendTransaction"@[0] == 's',
        "sendTransaction"@[4] == 'T',
        "sendTransaction"@.len() == 15,
        "searchAssets"@[0] == 's',
        "searchAssets"@.len() == 12,
        "getProgramAccounts"@[3] == 'P',
        "getProgramAccounts"@.len() == 18,
        "getAsset"@[3] == 'A',
        "getAssetBatch"@[3] == 'A',
        "getAssetProof"@[3] == 'A',
        "getAssetProofBatch"@[3] == 'A',
        "getAssetsByOwner"@[3] == 'A',
        "getAssetsByAuthority"@[3] == 'A',
        "getAssetsByCreator"@[3] == 'A',
        "getAssetsByGroup"@[3] == 'A',
        "getSignaturesForAsset"@[3] == 'S',
        "getTokenAccounts"@[3] == 'T',
        "getNftEditions"@[3] == 'N',
        "searchAssets"@[3] == 'r',
        "sendTransaction"@[3] == 'd',
        "getCompressedAccount"@[3] == 'C',
        "getCompressedAccountProof"@[3] == 'C',
        "getCompressedAccountsByOwner"@[3] == 'C',
        "getCompressedBalance"@[3] == 'C',
        "getCompressedBalanceByOwner"@[3] == 'C',
        "getCompressedTokenAccountsByOwner"@[3] == 'C',
        "getCompressedTokenAccountBalance"@[3] == 'C',
        "getValidityProof"@[3] == 'V',
        "getValidityProofs"@[3] == 'V',
        "getMultipleCompressedAccounts"@[3] == 'M',
{
    reveal_strlit("sendTransaction");
    reveal_strlit("getProgramAccounts");
    reveal_strlit("getAsset");
    reveal_strlit("getAssetBatch");
    reveal_strlit("getAssetProof");
    reveal_strlit("getAssetProofBatch");
    reveal_strlit("getAssetsByOwner");
    reveal_strlit("getAssetsByAuthority");
    reveal_strlit("getAssetsByCreator");
    reveal_strlit("getAssetsByGroup");
    reveal_strlit("searchAssets");
    reveal_strlit("getSignaturesForAsset");
    reveal_strlit("getTokenAccounts");
    reveal_strlit("getNftEditions");
    reveal_strlit("getCompressedAccount");
    reveal_strlit("getCompressedAccountProof");
    reveal_strlit("getCompressedAccountsByOwner");
    reveal_strlit("getCompressedBalance");
    reveal_strlit("getCompressedBalanceByOwner");
    reveal_strlit("getCompressedTokenAccountsByOwner");
    reveal_strlit("getCompressedTokenAccountBalance");
    reveal_strlit("getValidityProof");
    reveal_strlit("getValidityProofs");
    reveal_strlit("getMultipleCompressedAccounts");
}

/// A request is tallied once for each of its methods, and as `other` where it has none.
pub proof fn a_request_is_tallied_by_its_methods(method: Seq<char>, methods: Seq<Seq<char>>)
    ensures
        tallied(Calls::Single(method)) == seq![method],
        tallied(Calls::Batch(methods)) == methods,
        tallied(Calls::NonJsonRpc) == seq!["other"@],
{
}

/// A path is a REST path if and only if it begins with `/v0/` or `/v1/`.
pub proof fn rest_paths_begin_with_their_version(path: Seq<char>)
    ensures
        rest_path(path) <==> path.len() >= 4 && path[0] == '/' && path[1] == 'v' && (path[2] == '0'
            || path[2] == '1') && path[3] == '/',
{
    reveal_strlit("/v0/");
    reveal_strlit("/v1/");
    let (a, b) = ("/v0/"@, "/v1/"@);
    if path.len() >= 4 {
        let start = path.subrange(0, 4);
        assert(start[0] == path[0] && start[1] == path[1] && start[2] == path[2] && start[3]
            == path[3]);
        if path[0] == '/' && path[1] == 'v' && path[3] == '/' {
            if path[2] == '0' {
                assert(a =~= start);
            }
            if path[2] == '1' {
                assert(b =~= start);
            }
        }
        if a =~= start {
            assert(start[2] == a[2] && start[0] == a[0] && start[1] == a[1] && start[3] == a[3]);
        }
        if b =~= start {
            assert(start[2] == b[2] && start[0] == b[0] && start[1] == b[1] && start[3] == b[3]);
        }
    }
}

/// The leading byte of a body is the first one that is no ASCII white space.
pub proof fn white_space_before_a_body_is_passed_over(body: Seq<u8>, i: int)
    requires
        0 <= i <= body.len(),
        forall|j: int|
            0 <= j < i ==> {
                let b = #[trigger] body[j];
                b == 32 || b == 9 || b == 10 || b == 12 || b == 13
            },
        i < body.len() ==> body[i] != 32 && body[i] != 9 && body[i] != 10 && body[i] != 12
            && body[i] != 13,
    ensures
        i < body.len() ==> leading_byte(body) == Some(body[i]),
        i == body.len() ==> leading_byte(body) is None,
        first_solid(body) == i,
    decreases body.len(),
{
    if i > 0 {
        let rest = body.skip(1);
        assert forall|j: int| 0 <= j < i - 1 implies {
            let b = #[trigger] rest[j];
            b == 32 || b == 9 || b == 10 || b == 12 || b == 13
        } by {
            assert(rest[j] == body[j + 1]);
        }
        if i < body.len() {
            assert(rest[i - 1] == body[i]);
        }
        white_space_before_a_body_is_passed_over(rest, i - 1);
        assert(is_space(body[0]));
    }
}

/// A body is read as a batch if it leads with `[`, as a single call if it leads with `{`, and
/// not at all otherwise, nor under a REST path.
pub proof fn a_body_is_read_by_its_leading_byte(path: Seq<char>, body: Seq<u8>)
    ensures
        rest_path(path) ==> calls_in(path, body) == Calls::NonJsonRpc,
        !rest_path(path) && leading_byte(body) == Some(91u8) ==> calls_in(path, body)
            == batch_calls(record_list(body, "method"@)),
        !rest_path(path) && leading_byte(body) == Some(123u8) ==> calls_in(path, body)
            == single_calls(record(body, "method"@)),
        leading_byte(body) != Some(91u8) && leading_byte(body) != Some(123u8) ==> calls_in(
            path,
            body,
        ) == Calls::NonJsonRpc,
{
}

/// What a parsed body says is what it holds: one method, or all the methods in order.
pub proof fn a_parsed_body_says_what_it_holds(parsed: Parsed, i: int)
    ensures
        parsed matches Parsed::Single { method } ==> parsed@ == Calls::Single(method@),
        parsed matches Parsed::Batch { methods } ==> {
            &&& parsed@ == Calls::Batch(texts(methods@))
            &&& texts(methods@).len() == methods@.len()
            &&& 0 <= i < methods@.len() ==> texts(methods@)[i] == methods@[i]@
        },
        parsed is NonJsonRpc ==> parsed@ == Calls::NonJsonRpc,
{
}

/// A decoded list says what it holds, item by item.
pub proof fn a_decoded_list_says_what_it_holds(list: Seq<Option<String>>, i: int)
    requires
        0 <= i < list.len(),
    ensures
        opt_texts(list).len() == list.len(),
        list[i] matches Some(text) ==> opt_texts(list)[i] == Some(text@),
        list[i] is None ==> opt_texts(list)[i] is None,
        opt_text(list[i]) == opt_texts(list)[i],
{
}

/// A scan of JSON text: outside strings a bracket changes the depth by one and a quote opens a
/// string; inside, a backslash covers the next byte, and only an uncovered quote closes it.
pub proof fn a_scan_follows_quotes_and_brackets(text: Seq<u8>, i: int)
    requires
        0 <= i < text.len(),
    ensures
        scan_at(text, 0) == (Scan { depth: 0, quoted: false, escaped: false }),
        ({
            let here = scan_at(text, i);
            let next = scan_at(text, i + 1);
            let byte = text[i];
            &&& here.quoted ==> next.depth == here.depth
            &&& here.quoted && here.escaped ==> next.quoted && !next.escaped
            &&& here.quoted && !here.escaped ==> (next.quoted <==> byte != 34) && (next.escaped
                <==> byte == 92)
            &&& !here.quoted ==> (next.quoted <==> byte == 34) && next.escaped == here.escaped
            &&& !here.quoted && (byte == 91 || byte == 123) ==> next.depth == here.depth + 1
            &&& !here.quoted && (byte == 93 || byte == 125) && here.depth > 0 ==> next.depth
                == here.depth - 1
            &&& !here.quoted && (byte == 93 || byte == 125) && here.depth == 0 ==> next.depth == 0
            &&& byte != 91 && byte != 93 && byte != 123 && byte != 125 ==> next.depth == here.depth
        }),
        separates(text, i, text[i]) <==> !scan_at(text, i).quoted && scan_at(text, i).depth == 0,
{
    reveal_with_fuel(scan_at, 2);
}

/// In text without quotes and brackets, every separator separates.
pub proof fn in_flat_text_every_separator_counts(text: Seq<u8>, i: int, sep: u8)
    requires
        0 <= i < text.len(),
        forall|j: int|
            0 <= j < i ==> {
                let b = #[trigger] text[j];
                b != 34 && b != 91 && b != 93 && b != 123 && b != 125
            },
    ensures
        separates(text, i, sep) <==> text[i] == sep,
{
    lemma_flat(text, i);
}

proof fn lemma_flat(text: Seq<u8>, i: int)
    requires
        0 <= i <= text.len(),
        forall|j: int|
            0 <= j < i ==> {
                let b = #[trigger] text[j];
                b != 34 && b != 91 && b != 93 && b != 123 && b != 125
            },
    ensures
        scan_at(text, i) == (Scan { depth: 0, quoted: false, escaped: false }),
    decreases i,
{
    if i > 0 {
        assert(text[i - 1] != 34);
        lemma_flat(text, i - 1);
    }
}

/// Taking text apart loses nothing: the parts, each with the separator behind it, are the text
/// with one behind it.
pub proof fn taking_apart_loses_nothing(text: Seq<u8>, sep: u8)
    ensures
        parts(text, sep).map_values(|p: Seq<u8>| p.push(sep)).flatten() == text.push(sep),
{
    lemma_flattened(text, 0, sep);
    assert(text.subrange(0, text.len() as int) =~= text);
}

proof fn lemma_flattened(text: Seq<u8>, from: int, sep: u8)
    requires
        0 <= from <= text.len(),
    ensures
        parts_from(text, from, sep).map_values(|p: Seq<u8>| p.push(sep)).flatten()
            == text.subrange(from, text.len() as int).push(sep),
    decreases text.len() - from,
{
    let closed = |p: Seq<u8>| p.push(sep);
    let cut = next_separator(text, from, sep);
    lemma_next(text, from, sep);
    let all = parts_from(text, from, sep).map_values(closed);
    reveal_with_fuel(Seq::flatten, 3);
    if cut >= text.len() {
        let rest = text.subrange(from, text.len() as int);
        assert(all =~= seq![rest.push(sep)]);
        assert(all.drop_first() =~= Seq::<Seq<u8>>::empty());
        assert(all.flatten() =~= rest.push(sep));
    } else {
        lemma_flattened(text, cut + 1, sep);
        let head = text.subrange(from, cut);
        let tail = parts_from(text, cut + 1, sep).map_values(closed);
        assert(all =~= seq![head.push(sep)] + tail);
        assert(all.drop_first() =~= tail);
        assert(all.flatten() =~= head.push(sep) + tail.flatten());
        assert(text.subrange(from, text.len() as int).push(sep) =~= head.push(sep)
            + text.subrange(cut + 1, text.len() as int).push(sep));
    }
}

proof fn lemma_next(text: Seq<u8>, from: int, sep: u8)
    requires
        0 <= from <= text.len(),
    ensures
        from <= next_separator(text, from, sep) <= text.len(),
        next_separator(text, from, sep) < text.len() ==> separates(
            text,
            next_separator(text, from, sep),
            sep,
        ),
        forall|j: int|
            from <= j < next_separator(text, from, sep) ==> !#[trigger] separates(text, j, sep),
    decreases text.len() - from,
{
    if from < text.len() && !separates(text, from, sep) {
        lemma_next(text, from + 1, sep);
    }
}

/// From any place on, the text is cut at the first separator that counts, and behind it goes on
/// in the same way; without one, what is left is the last part.
pub proof fn text_is_cut_at_every_separator_that_counts(
    text: Seq<u8>,
    sep: u8,
    from: int,
    cut: int,
)
    requires
        0 <= from <= cut <= text.len(),
        forall|j: int| from <= j < cut ==> !#[trigger] separates(text, j, sep),
        cut < text.len() ==> separates(text, cut, sep),
    ensures
        parts(text, sep) == parts_from(text, 0, sep),
        cut < text.len() ==> parts_from(text, from, sep) == seq![text.subrange(from, cut)]
            + parts_from(text, cut + 1, sep),
        cut == text.len() ==> parts_from(text, from, sep) == seq![text.subrange(from, cut)],
{
    lemma_next(text, from, sep);
    let found = next_separator(text, from, sep);
    if found < cut {
        assert(!separates(text, found, sep));
    }
    if cut < found {
        assert(!separates(text, cut, sep));
    }
    assert(found == cut);
}

/// The items of a bracketed text stand between its brackets, which are its first and its last
/// byte that is no white space; between brackets with white space alone there are none.
pub proof fn items_stand_between_the_brackets(
    text: Seq<u8>,
    before: Seq<u8>,
    open: u8,
    inner: Seq<u8>,
    close: u8,
    behind: Seq<u8>,
)
    requires
        text == before.push(open) + inner.push(close) + behind,
        forall|j: int| 0 <= j < before.len() ==> is_space(#[trigger] before[j]),
        forall|j: int| 0 <= j < behind.len() ==> is_space(#[trigger] behind[j]),
        !is_space(open),
        !is_space(close),
    ensures
        (forall|j: int| 0 <= j < inner.len() ==> is_space(#[trigger] inner[j])) ==> items(
            text,
        ).len() == 0,
        (exists|j: int| 0 <= j < inner.len() && !is_space(#[trigger] inner[j])) ==> items(text)
            == parts(inner, 44),
{
    lemma_first(text, before.len() as int);
    lemma_last(text, (before.len() + inner.len() + 2) as int);
    assert(enclosed(text) =~= inner);
    if forall|j: int| 0 <= j < inner.len() ==> is_space(#[trigger] inner[j]) {
        lemma_first(inner, inner.len() as int);
    } else {
        lemma_some_solid(inner);
    }
}

proof fn lemma_first(text: Seq<u8>, k: int)
    requires
        0 <= k <= text.len(),
        forall|j: int| 0 <= j < k ==> is_space(#[trigger] text[j]),
        k < text.len() ==> !is_space(text[k]),
    ensures
        first_solid(text) == k,
    decreases k,
{
    if k > 0 {
        assert(is_space(text[0]));
        let rest = text.skip(1);
        assert forall|j: int| 0 <= j < k - 1 implies is_space(#[trigger] rest[j]) by {
            assert(rest[j] == text[j + 1]);
        }
        lemma_first(rest, k - 1);
    }
}

proof fn lemma_last(text: Seq<u8>, k: int)
    requires
        0 < k <= text.len(),
        forall|j: int| k <= j < text.len() ==> is_space(#[trigger] text[j]),
        !is_space(text[k - 1]),
    ensures
        solid_end(text) == k,
    decreases text.len(),
{
    if k < text.len() {
        assert(is_space(text[text.len() - 1]));
        lemma_last(text.drop_last(), k);
    }
}

proof fn lemma_some_solid(text: Seq<u8>)
    ensures
        0 <= first_solid(text) <= text.len(),
        first_solid(text) == text.len() ==> forall|j: int|
            0 <= j < text.len() ==> is_space(#[trigger] text[j]),
    decreases text.len(),
{
    if text.len() > 0 && is_space(text[0]) {
        let rest = text.skip(1);
        lemma_some_solid(rest);
        if first_solid(text) == text.len() {
            assert forall|j: int| 0 <= j < text.len() implies is_space(#[trigger] text[j]) by {
                if j > 0 {
                    assert(rest[j - 1] == text[j]);
                }
            }
        }
    }
}

/// White space is the space, the tab, the line feed, the form feed and the carriage return.
pub proof fn white_space_between_json_tokens(byte: u8)
    ensures
        is_space(byte) <==> byte == 32 || byte == 9 || byte == 10 || byte == 12 || byte == 13,
{
}

/// A field is found if and only if every member is a key and a value, and exactly one key is
/// the field's name; then it is that member's value, a string or null. Where no key is, the
/// field is absent.
pub proof fn a_field_is_found_where_one_member_bears_its_name(
    members: Seq<Seq<u8>>,
    name: Seq<char>,
    k: int,
    value: Option<Seq<char>>,
)
    requires
        0 <= k <= members.len(),
        forall|j: int|
            0 <= j < members.len() ==> parts(#[trigger] members[j], 58).len() == 2 && json_text(
                parts(members[j], 58)[0],
            ) is Some,
        forall|j: int|
            0 <= j < members.len() && j != k ==> json_text(parts(#[trigger] members[j], 58)[0])
                != Some(name),
        k < members.len() ==> json_text(parts(members[k], 58)[0]) == Some(name)
            && json_optional_text(parts(members[k], 58)[1]) == Some(value),
    ensures
        read_field(members, name, members.len() as int) == (if k < members.len() {
            FieldRead::Found(value)
        } else {
            FieldRead::Absent
        }),
{
    lemma_field(members, name, k, value, members.len() as int);
}

proof fn lemma_field(
    members: Seq<Seq<u8>>,
    name: Seq<char>,
    k: int,
    value: Option<Seq<char>>,
    n: int,
)
    requires
        0 <= n <= members.len(),
        0 <= k <= members.len(),
        forall|j: int|
            0 <= j < members.len() ==> parts(#[trigger] members[j], 58).len() == 2 && json_text(
                parts(members[j], 58)[0],
            ) is Some,
        forall|j: int|
            0 <= j < members.len() && j != k ==> json_text(parts(#[trigger] members[j], 58)[0])
                != Some(name),
        k < members.len() ==> json_text(parts(members[k], 58)[0]) == Some(name)
            && json_optional_text(parts(members[k], 58)[1]) == Some(value),
    ensures
        read_field(members, name, n) == (if k < n {
            FieldRead::Found(value)
        } else {
            FieldRead::Absent
        }),
    decreases n,
{
    if n > 0 {
        lemma_field(members, name, k, value, n - 1);
        assert(parts(members[n - 1], 58).len() == 2);
    }
}

/// A field that two members bear is refused, whatever they hold.
pub proof fn a_field_that_occurs_twice_is_refused(
    members: Seq<Seq<u8>>,
    name: Seq<char>,
    a: int,
    b: int,
    n: int,
)
    requires
        0 <= a < b < n <= members.len(),
        json_text(parts(members[a], 58)[0]) == Some(name),
        json_text(parts(members[b], 58)[0]) == Some(name),
    ensures
        read_field(members, name, n) is Bad,
    decreases n,
{
    if n - 1 > b {
        a_field_that_occurs_twice_is_refused(members, name, a, b, n - 1);
    } else {
        lemma_borne(members, name, a, b);
    }
}

proof fn lemma_borne(members: Seq<Seq<u8>>, name: Seq<char>, a: int, n: int)
    requires
        0 <= a < n <= members.len(),
        json_text(parts(members[a], 58)[0]) == Some(name),
    ensures
        !(read_field(members, name, n) is Absent),
    decreases n,
{
    if n - 1 > a {
        lemma_borne(members, name, a, n - 1);
    }
}

/// A member that is no key and value, or whose value is neither a string nor null where the
/// key is the field's name, spoils the object.
pub proof fn a_malformed_member_spoils_the_object(
    members: Seq<Seq<u8>>,
    name: Seq<char>,
    a: int,
    n: int,
)
    requires
        0 <= a < n <= members.len(),
        parts(members[a], 58).len() != 2 || json_text(parts(members[a], 58)[0]) is None
            || json_text(parts(members[a], 58)[0]) == Some(name) && json_optional_text(
            parts(members[a], 58)[1],
        ) is None,
    ensures
        read_field(members, name, n) is Bad,
    decreases n,
{
    if n - 1 > a {
        a_malformed_member_spoils_the_object(members, name, a, n - 1);
    }
}

/// A record is an object, read by the field's name, or a list of exactly one value.
pub proof fn a_record_is_an_object_or_a_list_of_one(text: Seq<u8>, name: Seq<char>)
    ensures
        leading_byte(text) == Some(123u8) ==> record_field(text, name) == (match read_field(
            items(text),
            name,
            items(text).len() as int,
        ) {
            FieldRead::Bad => None,
            FieldRead::Absent => Some(None),
            FieldRead::Found(value) => Some(value),
        }),
        leading_byte(text) == Some(91u8) && items(text).len() == 1 ==> record_field(text, name)
            == json_optional_text(items(text)[0]),
        leading_byte(text) == Some(91u8) && items(text).len() != 1 ==> record_field(text, name)
            is None,
        leading_byte(text) != Some(91u8) && leading_byte(text) != Some(123u8) ==> record_field(
            text,
            name,
        ) is None,
        json_well_formed(text) ==> record(text, name) == record_field(text, name),
        !json_well_formed(text) ==> record(text, name) is None,
{
    lemma_some_solid(text);
}

/// A list of records has a field for each of its items, in order; one item that is no record,
/// or malformed text, spoils it.
pub proof fn a_list_has_a_field_for_each_record(text: Seq<u8>, name: Seq<char>, i: int)
    ensures
        !json_well_formed(text) ==> record_list(text, name) is None,
        0 <= i < items(text).len() && record_field(items(text)[i], name) is None ==> record_list(
            text,
            name,
        ) is None,
        record_list(text, name) matches Some(fields) ==> {
            &&& fields.len() == items(text).len()
            &&& 0 <= i < items(text).len() ==> record_field(items(text)[i], name) == Some(fields[i])
        },
        json_well_formed(text) && (forall|j: int|
            0 <= j < items(text).len() ==> record_field(#[trigger] items(text)[j], name) is Some)
            ==> record_list(text, name) is Some,
{
}

} // verus!
