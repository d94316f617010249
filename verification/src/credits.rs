//! Credit estimation: classify JSON-RPC methods, map them to credit costs, and
//! parse request bodies (single + batch) to compute a per-request estimate.
//!
//! Costs follow the Helius credit table: standard RPC = 1, getProgramAccounts =
//! 10, DAS = 10, ZK = 10, getValidityProofs = 100. Per-method overrides come
//! from config.

use vstd::prelude::*;

use crate::config::CostsConfig;
use crate::json::{
    find_solid, first_solid, opt_text, opt_texts, read_record, read_record_list, record,
    record_list,
};
use crate::name_map::{lookup, NameMap};
use crate::text::{after_prefix, same_text};

verus! {

/// Coarse method category, used both for cost defaults and RPS gating.
#[derive(Copy, Clone, Eq, PartialEq, Hash, Debug, Structural)]
pub enum MethodClass {
    StandardRpc,
    SendTransaction,
    GetProgramAccounts,
    Das,
    Zk,
}

impl MethodClass {
    /// Credits that a call of this class costs, unless its method has a cost of its own.
    pub open spec fn credits(self) -> u32 {
        match self {
            MethodClass::StandardRpc | MethodClass::SendTransaction => 1,
            MethodClass::GetProgramAccounts | MethodClass::Das | MethodClass::Zk => 10,
        }
    }

    /// Rank by how strict the class's RPS limit is; zero is the strictest.
    pub open spec fn rank(self) -> u8 {
        match self {
            MethodClass::SendTransaction => 0,
            MethodClass::Das | MethodClass::Zk => 1,
            MethodClass::GetProgramAccounts => 2,
            MethodClass::StandardRpc => 3,
        }
    }

    /// Default credit cost for the class when no per-method override applies.
    pub fn default_cost(self) -> (cost: u32)
        ensures
            cost == self.credits(),
    {
        match self {
            MethodClass::StandardRpc | MethodClass::SendTransaction => 1,
            MethodClass::GetProgramAccounts | MethodClass::Das | MethodClass::Zk => 10,
        }
    }

    /// Restrictiveness rank — lower = stricter RPS limit. Used to pick the most
    /// restrictive class in a batch.
    pub fn restrictiveness(self) -> (rank: u8)
        ensures
            rank == self.rank(),
    {
        match self {
            MethodClass::SendTransaction => 0,  // 1 RPS
            MethodClass::Das | MethodClass::Zk => 1,  // 2 RPS
            MethodClass::GetProgramAccounts => 2,  // 5 RPS
            MethodClass::StandardRpc => 3,  // 10 RPS
        }
    }
}

/// The methods of the Digital Asset Standard API.
pub open spec fn das_name(name: Seq<char>) -> bool {
    ||| name == "getAsset"@
    ||| name == "getAssetBatch"@
    ||| name == "getAssetProof"@
    ||| name == "getAssetProofBatch"@
    ||| name == "getAssetsByOwner"@
    ||| name == "getAssetsByAuthority"@
    ||| name == "getAssetsByCreator"@
    ||| name == "getAssetsByGroup"@
    ||| name == "searchAssets"@
    ||| name == "getSignaturesForAsset"@
    ||| name == "getTokenAccounts"@
    ||| name == "getNftEditions"@
}

/// The methods of the ZK compression API.
pub open spec fn zk_name(name: Seq<char>) -> bool {
    ||| name == "getCompressedAccount"@
    ||| name == "getCompressedAccountProof"@
    ||| name == "getCompressedAccountsByOwner"@
    ||| name == "getCompressedBalance"@
    ||| name == "getCompressedBalanceByOwner"@
    ||| name == "getCompressedTokenAccountsByOwner"@
    ||| name == "getCompressedTokenAccountBalance"@
    ||| name == "getValidityProof"@
    ||| name == "getValidityProofs"@
    ||| name == "getMultipleCompressedAccounts"@
}

/// The class of a method, by its name.
pub open spec fn class_of(name: Seq<char>) -> MethodClass {
    if name == "sendTransaction"@ {
        MethodClass::SendTransaction
    } else if name == "getProgramAccounts"@ {
        MethodClass::GetProgramAccounts
    } else if das_name(name) {
        MethodClass::Das
    } else if zk_name(name) {
        MethodClass::Zk
    } else {
        MethodClass::StandardRpc
    }
}

/// Classify a JSON-RPC method name into a [`MethodClass`].
pub fn classify(method: &str) -> (class: MethodClass)
    ensures
        class == class_of(method@),
{
    if same_text(method, "sendTransaction") {
        MethodClass::SendTransaction
    } else if same_text(method, "getProgramAccounts") {
        MethodClass::GetProgramAccounts
    } else if is_das(method) {
        MethodClass::Das
    } else if is_zk(method) {
        MethodClass::Zk
    } else {
        MethodClass::StandardRpc
    }
}

fn is_das(m: &str) -> (yes: bool)
    ensures
        yes == das_name(m@),
{
    same_text(m, "getAsset")
        || same_text(m, "getAssetBatch")
        || same_text(m, "getAssetProof")
        || same_text(m, "getAssetProofBatch")
        || same_text(m, "getAssetsByOwner")
        || same_text(m, "getAssetsByAuthority")
        || same_text(m, "getAssetsByCreator")
        || same_text(m, "getAssetsByGroup")
        || same_text(m, "searchAssets")
        || same_text(m, "getSignaturesForAsset")
        || same_text(m, "getTokenAccounts")
        || same_text(m, "getNftEditions")
}

fn is_zk(m: &str) -> (yes: bool)
    ensures
        yes == zk_name(m@),
{
    same_text(m, "getCompressedAccount")
        || same_text(m, "getCompressedAccountProof")
        || same_text(m, "getCompressedAccountsByOwner")
        || same_text(m, "getCompressedBalance")
        || same_text(m, "getCompressedBalanceByOwner")
        || same_text(m, "getCompressedTokenAccountsByOwner")
        || same_text(m, "getCompressedTokenAccountBalance")
        || same_text(m, "getValidityProof")
        || same_text(m, "getValidityProofs")
        || same_text(m, "getMultipleCompressedAccounts")
}

/// The costs that no class default captures.
pub open spec fn builtin_costs() -> Map<Seq<char>, u32> {
    Map::<Seq<char>, u32>::empty().insert("getValidityProof"@, 100).insert("getValidityProofs"@, 100)
}

/// Resolved cost table: built-in per-method overrides merged with config
/// overrides, plus a fallback cost for non-JSON-RPC REST paths.
#[derive(Debug, Clone)]
pub struct CostTable {
    overrides: NameMap<u32>,
    default_rest_cost: u32,
}

impl CostTable {
    /// The methods that have a cost of their own.
    pub closed spec fn own_costs(&self) -> Map<Seq<char>, u32> {
        self.overrides@
    }

    /// The cost of a request that is no JSON-RPC.
    pub closed spec fn rest_cost(&self) -> u32 {
        self.default_rest_cost
    }

    /// The cost of one call of a method.
    pub open spec fn cost(&self, name: Seq<char>) -> u32 {
        if self.own_costs().contains_key(name) {
            self.own_costs()[name]
        } else {
            class_of(name).credits()
        }
    }

    /// The table that a configuration asks for: its overrides win over the built-in costs.
    pub fn from_config(c: &CostsConfig) -> (table: Self)
        ensures
            table.own_costs() == builtin_costs().union_prefer_right(c.overrides@),
            table.rest_cost() == c.default_rest_cost,
    {
        // Built-in exceptions that aren't captured by class defaults.
        let mut overrides: NameMap<u32> = NameMap::new();
        overrides.insert("getValidityProof".to_owned(), 100);
        overrides.insert("getValidityProofs".to_owned(), 100);
        // User overrides win; the first entry under a name is put in last.
        let ghost list = c.overrides.list();
        let mut i: usize = c.overrides.len();
        assert(overrides@ == builtin_costs());
        while i > 0
            invariant
                i <= list.len(),
                list == c.overrides.list(),
                forall|n: Seq<char>| #[trigger]
                    overrides@.contains_key(n) == (builtin_costs().contains_key(n) || lookup(
                        list.skip(i as int),
                        n,
                    ) is Some),
                forall|n: Seq<char>|
                    overrides@.contains_key(n) ==> #[trigger] overrides@[n] == (match lookup(
                        list.skip(i as int),
                        n,
                    ) {
                        Some(v) => v,
                        None => builtin_costs()[n],
                    }),
            decreases i,
        {
            i -= 1;
            let ghost before = overrides@;
            overrides.insert(c.overrides.name_at(i).to_owned(), c.overrides.value_at(i));
            proof {
                let rest = list.skip(i as int);
                assert(rest[0] == list[i as int]);
                assert(rest.skip(1) == list.skip(i + 1));
                assert forall|n: Seq<char>| true implies #[trigger] lookup(rest, n) == (if rest[0].0
                    == n {
                    Some(rest[0].1)
                } else {
                    lookup(list.skip(i + 1), n)
                }) by {}
            }
        }
        assert(list.skip(0) == list);
        assert(overrides@ =~= builtin_costs().union_prefer_right(c.overrides@));
        CostTable { overrides, default_rest_cost: c.default_rest_cost }
    }

    /// Credit cost of a single method.
    pub fn cost_of(&self, method: &str) -> (cost: u32)
        ensures
            cost == self.cost(method@),
    {
        match self.overrides.get(method) {
            Some(c) => c,
            None => classify(method).default_cost(),
        }
    }
}

/// A parsed request body, reduced to what is needed for cost + class.
#[derive(Debug, Clone, PartialEq, Eq)]
pub enum Parsed {
    Single { method: String },
    Batch { methods: Vec<String> },
    /// GET, REST path, empty, or unparseable body.
    NonJsonRpc,
}

/// A [`Parsed`], with method names by their characters.
#[verifier::ext_equal]
pub enum Calls {
    Single(Seq<char>),
    Batch(Seq<Seq<char>>),
    NonJsonRpc,
}

/// A list of texts, by their characters.
pub open spec fn texts(list: Seq<String>) -> Seq<Seq<char>> {
    list.map_values(|t: String| t@)
}

impl View for Parsed {
    type V = Calls;

    open spec fn view(&self) -> Calls {
        match *self {
            Parsed::Single { method } => Calls::Single(method@),
            Parsed::Batch { methods } => Calls::Batch(texts(methods@)),
            Parsed::NonJsonRpc => Calls::NonJsonRpc,
        }
    }
}

/// The texts that are there, in their order.
pub open spec fn present(list: Seq<Option<Seq<char>>>) -> Seq<Seq<char>>
    decreases list.len(),
{
    if list.len() == 0 {
        Seq::empty()
    } else {
        match list.last() {
            Some(text) => present(list.drop_last()).push(text),
            None => present(list.drop_last()),
        }
    }
}

/// What a body of one call comes to: the call's method, if it has one.
pub open spec fn single_calls(call: Option<Option<Seq<char>>>) -> Calls {
    match call {
        Some(Some(method)) => Calls::Single(method),
        _ => Calls::NonJsonRpc,
    }
}

/// What a body of a list of calls comes to: the methods of those that have one.
pub open spec fn batch_calls(calls: Option<Seq<Option<Seq<char>>>>) -> Calls {
    match calls {
        Some(list) => if present(list).len() == 0 {
            Calls::NonJsonRpc
        } else {
            Calls::Batch(present(list))
        },
        None => Calls::NonJsonRpc,
    }
}

/// REST endpoints (enhanced/wallet) are not JSON-RPC.
pub open spec fn rest_path(path: Seq<char>) -> bool {
    "/v0/"@.is_prefix_of(path) || "/v1/"@.is_prefix_of(path)
}

/// The first byte of a body that is no white space.
pub open spec fn leading_byte(body: Seq<u8>) -> Option<u8> {
    if first_solid(body) < body.len() {
        Some(body[first_solid(body)])
    } else {
        None
    }
}

/// The calls that a request to `path` with `body` makes.
pub open spec fn calls_in(path: Seq<char>, body: Seq<u8>) -> Calls {
    if rest_path(path) {
        Calls::NonJsonRpc
    } else if leading_byte(body) == Some(0x5bu8) {
        batch_calls(record_list(body, "method"@))
    } else if leading_byte(body) == Some(0x7bu8) {
        single_calls(record(body, "method"@))
    } else {
        Calls::NonJsonRpc
    }
}

/// Reduces a decoded call; `None` stands for a body that does not decode.
pub fn single_of(call: Option<Option<String>>) -> (parsed: Parsed)
    ensures
        parsed@ == single_calls(match call {
            Some(method) => Some(opt_text(method)),
            None => None,
        }),
{
    match call {
        Some(Some(method)) => Parsed::Single { method },
        _ => Parsed::NonJsonRpc,
    }
}

/// Reduces a decoded list of calls; `None` stands for a body that does not decode.
pub fn batch_of(calls: Option<Vec<Option<String>>>) -> (parsed: Parsed)
    ensures
        parsed@ == batch_calls(match calls {
            Some(list) => Some(opt_texts(list@)),
            None => None,
        }),
        match (calls, parsed) {
            (Some(list), Parsed::Batch { methods }) => methods@.len() > 0 && texts(methods@)
                == list@.filter(|c: Option<String>| c is Some).map_values(
                |c: Option<String>| c->0@,
            ),
            (Some(list), Parsed::NonJsonRpc) => list@.filter(|c: Option<String>| c is Some).len()
                == 0,
            (None, Parsed::NonJsonRpc) => true,
            _ => false,
        },
{
    match calls {
        Some(list) => {
            let mut methods: Vec<String> = Vec::new();
            let ghost all = opt_texts(list@);
            let ghost there = |c: Option<String>| c is Some;
            let ghost text = |c: Option<String>| c->0@;
            let mut i: usize = 0;
            assert(texts(methods@) =~= present(all.take(0)));
            proof {
                reveal(Seq::filter);
                assert(texts(methods@) =~= list@.take(0).filter(there).map_values(text));
            }
            while i < list.len()
                invariant
                    i <= list@.len(),
                    all == opt_texts(list@),
                    texts(methods@) == present(all.take(i as int)),
                    there == (|c: Option<String>| c is Some),
                    text == (|c: Option<String>| c->0@),
                    texts(methods@) == list@.take(i as int).filter(there).map_values(text),
                decreases list@.len() - i,
            {
                let ghost before = methods@;
                assert(all.take(i + 1).drop_last() == all.take(i as int));
                proof {
                    reveal(Seq::filter);
                    let upto = list@.take(i as int).filter(there);
                    assert(list@.take(i + 1).drop_last() == list@.take(i as int));
                    assert(upto.push(list@[i as int]).map_values(text) =~= upto.map_values(
                        text,
                    ).push(text(list@[i as int])));
                }
                assert(all.take(i + 1).last() == opt_text(list@[i as int]));
                match &list[i] {
                    Some(method) => {
                        methods.push(method.clone());
                        assert(texts(methods@) =~= texts(before).push(method@));
                    },
                    None => {},
                }
                i += 1;
            }
            assert(all.take(i as int) == all);
            assert(list@.take(i as int) == list@);
            assert(texts(methods@).len() == methods@.len());
            if methods.is_empty() {
                Parsed::NonJsonRpc
            } else {
                Parsed::Batch { methods }
            }
        },
        None => Parsed::NonJsonRpc,
    }
}

/// Parse a request to determine its JSON-RPC method(s). The body bytes are only
/// read, never mutated — they are forwarded verbatim.
pub fn parse_body(path: &str, body: &[u8]) -> (parsed: Parsed)
    ensures
        parsed@ == calls_in(path@, body@),
{
    if after_prefix(path, "/v0/").is_some() || after_prefix(path, "/v1/").is_some() {
        return Parsed::NonJsonRpc;
    }
    match first_non_ws(body) {
        Some(0x5b) => batch_of(read_record_list(body, "method")),
        Some(0x7b) => single_of(read_record(body, "method")),
        _ => Parsed::NonJsonRpc,
    }
}

fn first_non_ws(body: &[u8]) -> (byte: Option<u8>)
    ensures
        byte == leading_byte(body@),
{
    let at = find_solid(body);
    if at < body.len() {
        Some(body[at])
    } else {
        None
    }
}

/// The sum of the costs of the methods in a list.
pub open spec fn total_cost(methods: Seq<Seq<char>>, t: &CostTable) -> nat
    decreases methods.len(),
{
    if methods.len() == 0 {
        0
    } else {
        total_cost(methods.drop_last(), t) + t.cost(methods.last()) as nat
    }
}

/// What a request costs.
pub open spec fn calls_cost(calls: Calls, t: &CostTable) -> nat {
    match calls {
        Calls::Single(method) => t.cost(method) as nat,
        Calls::Batch(methods) => total_cost(methods, t),
        Calls::NonJsonRpc => t.rest_cost() as nat,
    }
}

/// Estimated credit cost of a parsed request, modulo 2^64.
pub fn request_cost(p: &Parsed, t: &CostTable) -> (cost: u64)
    ensures
        cost == calls_cost(p@, t) % 0x1_0000_0000_0000_0000,
{
    match p {
        Parsed::Single { method } => t.cost_of(method.as_str()) as u64,
        Parsed::Batch { methods } => {
            let mut sum: u64 = 0;
            let ghost all = texts(methods@);
            let mut i: usize = 0;
            while i < methods.len()
                invariant
                    i <= methods@.len(),
                    all == texts(methods@),
                    sum == total_cost(all.take(i as int), t) % 0x1_0000_0000_0000_0000,
                decreases methods@.len() - i,
            {
                assert(all.take(i + 1).drop_last() == all.take(i as int));
                assert(all.take(i + 1).last() == methods@[i as int]@);
                sum = sum.wrapping_add(t.cost_of(methods[i].as_str()) as u64);
                i += 1;
            }
            assert(all.take(i as int) == all);
            sum
        },
        Parsed::NonJsonRpc => t.default_rest_cost as u64,
    }
}

/// The first class of the lowest rank among the methods in a list.
pub open spec fn strictest(methods: Seq<Seq<char>>) -> MethodClass
    decreases methods.len(),
{
    if methods.len() == 0 {
        MethodClass::StandardRpc
    } else if methods.len() == 1 {
        class_of(methods[0])
    } else {
        let before = strictest(methods.drop_last());
        let last = class_of(methods.last());
        if last.rank() < before.rank() {
            last
        } else {
            before
        }
    }
}

/// The class that a request counts as.
pub open spec fn calls_class(calls: Calls) -> MethodClass {
    match calls {
        Calls::Single(method) => class_of(method),
        Calls::Batch(methods) => strictest(methods),
        Calls::NonJsonRpc => MethodClass::StandardRpc,
    }
}

/// The most restrictive class present (drives RPS gating).
pub fn primary_class(p: &Parsed) -> (class: MethodClass)
    ensures
        class == calls_class(p@),
{
    match p {
        Parsed::Single { method } => classify(method.as_str()),
        Parsed::Batch { methods } => {
            if methods.is_empty() {
                return MethodClass::StandardRpc;
            }
            let ghost all = texts(methods@);
            let mut class = classify(methods[0].as_str());
            let mut i: usize = 1;
            assert(all.take(1)[0] == methods@[0]@);
            while i < methods.len()
                invariant
                    1 <= i <= methods@.len(),
                    all == texts(methods@),
                    class == strictest(all.take(i as int)),
                decreases methods@.len() - i,
            {
                assert(all.take(i + 1).drop_last() == all.take(i as int));
                assert(all.take(i + 1).last() == methods@[i as int]@);
                let next = classify(methods[i].as_str());
                if next.restrictiveness() < class.restrictiveness() {
                    class = next;
                }
                i += 1;
            }
            assert(all.take(i as int) == all);
            class
        },
        Parsed::NonJsonRpc => MethodClass::StandardRpc,
    }
}

/// The names that a request is tallied under.
pub open spec fn tallied(calls: Calls) -> Seq<Seq<char>> {
    match calls {
        Calls::Single(method) => seq![method],
        Calls::Batch(methods) => methods,
        Calls::NonJsonRpc => seq!["other"@],
    }
}

/// A list of borrowed texts, by their characters.
pub open spec fn borrowed_texts(list: Seq<&str>) -> Seq<Seq<char>> {
    list.map_values(|t: &str| t@)
}

/// Method names for per-method metric labelling (batch expands to all).
pub fn methods(p: &Parsed) -> (names: Vec<&str>)
    ensures
        borrowed_texts(names@) == tallied(p@),
{
    let mut names: Vec<&str> = Vec::new();
    match p {
        Parsed::Single { method } => {
            names.push(method.as_str());
        },
        Parsed::Batch { methods } => {
            let mut i: usize = 0;
            while i < methods.len()
                invariant
                    i <= methods@.len(),
                    borrowed_texts(names@) =~= texts(methods@).take(i as int),
                decreases methods@.len() - i,
            {
                let ghost before = names@;
                let name = methods[i].as_str();
                names.push(name);
                assert(borrowed_texts(names@) =~= borrowed_texts(before).push(name@));
                assert(texts(methods@).take(i + 1) =~= texts(methods@).take(i as int).push(name@));
                i += 1;
            }
        },
        Parsed::NonJsonRpc => {
            names.push("other");
        },
    }
    assert(borrowed_texts(names@) =~= tallied(p@));
    names
}

/// A configured override is what a method costs, in place of the built-in cost and of the
/// default of its class.
pub proof fn an_override_wins(table: CostTable, overrides: Map<Seq<char>, u32>, name: Seq<char>)
    requires
        table.own_costs() == builtin_costs().union_prefer_right(overrides),
    ensures
        overrides.contains_key(name) ==> table.cost(name) == overrides[name],
        !overrides.contains_key(name) ==> table.cost(name) == (if name == "getValidityProof"@
            || name == "getValidityProofs"@ {
            100u32
        } else {
            class_of(name).credits()
        }),
{
}

/// The costs of the calls of a batch add up, however the batch is divided.
pub proof fn a_batch_costs_the_sum_of_its_calls(
    first: Seq<Seq<char>>,
    rest: Seq<Seq<char>>,
    t: &CostTable,
)
    ensures
        total_cost(first + rest, t) == total_cost(first, t) + total_cost(rest, t),
        first.len() == 1 ==> total_cost(first, t) == t.cost(first[0]),
    decreases rest.len(),
{
    reveal_with_fuel(total_cost, 2);
    if rest.len() == 0 {
        assert(first + rest =~= first);
    } else {
        assert((first + rest).drop_last() =~= first + rest.drop_last());
        a_batch_costs_the_sum_of_its_calls(first, rest.drop_last(), t);
    }
}

/// A batch counts as the class of one of its calls, and none of its calls is of a stricter one.
pub proof fn a_batch_counts_as_its_strictest_call(methods: Seq<Seq<char>>)
    requires
        methods.len() > 0,
    ensures
        exists|i: int|
            0 <= i < methods.len() && class_of(#[trigger] methods[i]) == strictest(methods),
        forall|i: int|
            0 <= i < methods.len() ==> strictest(methods).rank() <= class_of(
                #[trigger] methods[i],
            ).rank(),
    decreases methods.len(),
{
    if methods.len() == 1 {
        assert(class_of(methods[0]) == strictest(methods));
    } else {
        let before = methods.drop_last();
        a_batch_counts_as_its_strictest_call(before);
        let j = choose|j: int|
            0 <= j < before.len() && class_of(#[trigger] before[j]) == strictest(before);
        assert(class_of(methods[j]) == strictest(before));
        assert(class_of(methods[methods.len() - 1]) == class_of(methods.last()));
        assert forall|i: int| 0 <= i < methods.len() implies strictest(methods).rank() <= class_of(
            #[trigger] methods[i],
        ).rank() by {
            if i < before.len() {
                assert(before[i] == methods[i]);
            }
        }
    }
}

} // verus!
