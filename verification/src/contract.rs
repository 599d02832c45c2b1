//! A contract that keeps numbers under numeric keys, and the calls that
//! another contract makes to it.

use crate::text::utf8;
use std::collections::HashMap;
use vstd::prelude::*;

verus! {

broadcast use vstd::std_specs::hash::group_hash_axioms;

/// A store of numbers under numeric keys.
pub struct MyContract {
    data: HashMap<u64, u64>,
}

impl View for MyContract {
    type V = Map<u64, u64>;

    closed spec fn view(&self) -> Map<u64, u64> {
        self.data@
    }
}

impl Default for MyContract {
    /// The empty store.
    fn default() -> (contract: MyContract)
        ensures
            contract@ == Map::<u64, u64>::empty(),
    {
        MyContract { data: HashMap::new() }
    }
}

impl MyContract {
    /// The store that holds what `data` holds.
    pub fn from_map(data: HashMap<u64, u64>) -> (contract: MyContract)
        ensures
            contract@ == data@,
    {
        MyContract { data }
    }

    /// What the store holds, as a map.
    pub fn into_map(self) -> (data: HashMap<u64, u64>)
        ensures
            data@ == self@,
    {
        self.data
    }

    /// Puts `value` under `key`, and returns what was there before.
    pub fn insert_data(&mut self, key: u64, value: u64) -> (previous: Option<u64>)
        ensures
            final(self)@ == old(self)@.insert(key, value),
            previous == if old(self)@.contains_key(key) {
                Some(old(self)@[key])
            } else {
                None
            },
    {
        self.data.insert(key, value)
    }

    /// What is kept under `key`, if anything.
    pub fn get_data(&self, key: u64) -> (found: Option<u64>)
        ensures
            found == if self@.contains_key(key) {
                Some(self@[key])
            } else {
                None
            },
    {
        match self.data.get(&key) {
            Some(value) => Some(*value),
            None => None,
        }
    }

    /// The means to call this contract's functions on the account
    /// `account_id`, with nothing attached: no deposit, no gas of its own, and
    /// a share of 1 in the gas that is left over.
    pub fn ext(account_id: String) -> (ext: MyContractExt)
        ensures
            ext.account_id == account_id,
            ext.deposit == 0,
            ext.static_gas == 0,
            ext.gas_weight == 1,
    {
        MyContractExt { account_id, deposit: 0, static_gas: 0, gas_weight: 1 }
    }
}

/// What a call to the contract on another account takes with it.
#[must_use]
pub struct MyContractExt {
    pub account_id: String,
    pub deposit: u128,
    pub static_gas: u64,
    pub gas_weight: u64,
}

/// A call of a function of a contract, ready to be scheduled.
pub struct FunctionCall {
    pub account_id: String,
    pub function_name: String,
    pub arguments: Vec<u8>,
    pub amount: u128,
    pub gas: u64,
    pub weight: u64,
}

/// The decimal digits of `n`, in ASCII.
pub open spec fn decimal(n: nat) -> Seq<u8>
    decreases n,
{
    if n < 10 {
        seq![(48 + n) as u8]
    } else {
        decimal(n / 10).push((48 + n % 10) as u8)
    }
}

/// The JSON text of the arguments of `insert_data`: `{"key":K,"value":V}`,
/// with the decimal digits of the key for `K` and those of the value for `V`.
pub open spec fn insert_data_arguments(key: u64, value: u64) -> Seq<u8> {
    utf8("{\"key\":"@) + decimal(key as nat) + utf8(",\"value\":"@) + decimal(value as nat)
        + utf8("}"@)
}

/// The JSON text of the arguments of `get_data`: `{"key":K}`, with the decimal
/// digits of the key for `K`.
pub open spec fn get_data_arguments(key: u64) -> Seq<u8> {
    utf8("{\"key\":"@) + decimal(key as nat) + utf8("}"@)
}

/// Calls `serde_json::to_vec` on an unsigned integer. For such a value the
/// function writes the decimal digits of the number, in ASCII, into a fresh
/// vector, and writing into a vector does not fail.
#[verifier::external_body]
fn json_number(n: u64) -> (text: Vec<u8>)
    ensures
        text@ == decimal(n as nat),
{
    match serde_json::to_vec(&n) {
        Ok(text) => text,
        Err(_) => Vec::new(),
    }
}

impl FunctionCall {
    /// Whether this is the call of `function_name` with the given arguments
    /// that takes with it what `ext` holds.
    pub open spec fn is(self, ext: MyContractExt, function_name: Seq<char>, arguments: Seq<u8>) -> bool {
        &&& self.account_id@ == ext.account_id@
        &&& self.function_name@ == function_name
        &&& self.arguments@ == arguments
        &&& self.amount == ext.deposit
        &&& self.gas == ext.static_gas
        &&& self.weight == ext.gas_weight
    }
}

impl MyContractExt {
    /// The same, with `amount` as the deposit.
    pub fn with_attached_deposit(self, amount: u128) -> (ext: MyContractExt)
        ensures
            ext.account_id == self.account_id,
            ext.deposit == amount,
            ext.static_gas == self.static_gas,
            ext.gas_weight == self.gas_weight,
    {
        let mut ext = self;
        ext.deposit = amount;
        ext
    }

    /// The same, with `static_gas` as the gas of the call's own.
    pub fn with_static_gas(self, static_gas: u64) -> (ext: MyContractExt)
        ensures
            ext.account_id == self.account_id,
            ext.deposit == self.deposit,
            ext.static_gas == static_gas,
            ext.gas_weight == self.gas_weight,
    {
        let mut ext = self;
        ext.static_gas = static_gas;
        ext
    }

    /// The same, with `gas_weight` as the share in the gas that is left over.
    pub fn with_unused_gas_weight(self, gas_weight: u64) -> (ext: MyContractExt)
        ensures
            ext.account_id == self.account_id,
            ext.deposit == self.deposit,
            ext.static_gas == self.static_gas,
            ext.gas_weight == gas_weight,
    {
        let mut ext = self;
        ext.gas_weight = gas_weight;
        ext
    }

    /// The call of `insert_data` with the given key and value.
    pub fn insert_data(self, key: u64, value: u64) -> (call: FunctionCall)
        ensures
            call.is(self, "insert_data"@, insert_data_arguments(key, value)),
    {
        let mut arguments: Vec<u8> = Vec::new();
        arguments.extend_from_slice("{\"key\":".as_bytes());
        let mut digits = json_number(key);
        arguments.append(&mut digits);
        arguments.extend_from_slice(",\"value\":".as_bytes());
        let mut digits = json_number(value);
        arguments.append(&mut digits);
        arguments.extend_from_slice("}".as_bytes());
        proof {
            assert(arguments@ =~= insert_data_arguments(key, value));
        }
        FunctionCall {
            account_id: self.account_id,
            function_name: "insert_data".to_owned(),
            arguments,
            amount: self.deposit,
            gas: self.static_gas,
            weight: self.gas_weight,
        }
    }

    /// The call of `get_data` with the given key.
    pub fn get_data(self, key: u64) -> (call: FunctionCall)
        ensures
            call.is(self, "get_data"@, get_data_arguments(key)),
    {
        let mut arguments: Vec<u8> = Vec::new();
        arguments.extend_from_slice("{\"key\":".as_bytes());
        let mut digits = json_number(key);
        arguments.append(&mut digits);
        arguments.extend_from_slice("}".as_bytes());
        proof {
            assert(arguments@ =~= get_data_arguments(key));
        }
        FunctionCall {
            account_id: self.account_id,
            function_name: "get_data".to_owned(),
            arguments,
            amount: self.deposit,
            gas: self.static_gas,
            weight: self.gas_weight,
        }
    }
}

} // verus!
