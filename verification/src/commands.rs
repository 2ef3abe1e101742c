use vstd::prelude::*;

use crate::bytes::append_bytes;
use crate::registry::{has_name, spec_lookup, RegistryTable};
use crate::store::{
    get_current, lemma_current_idempotent, lemma_current_round_trip, lookup_kv, registry_key,
    set_current, set_kv, value_ok, value_plain,
};
use crate::Error;

verus! {

/// The confirmation printed after switching: `Registry has been set to: `.
pub open spec fn set_message_prefix() -> Seq<u8> {
    seq![
        82u8, 101u8, 103u8, 105u8, 115u8, 116u8, 114u8, 121u8, 32u8, 104u8, 97u8, 115u8, 32u8,
        98u8, 101u8, 101u8, 110u8, 32u8, 115u8, 101u8, 116u8, 32u8, 116u8, 111u8, 58u8, 32u8,
    ]
}

/// The complaint about a name the table does not know: `Not find registry: `.
pub open spec fn unknown_message_prefix() -> Seq<u8> {
    seq![
        78u8, 111u8, 116u8, 32u8, 102u8, 105u8, 110u8, 100u8, 32u8, 114u8, 101u8, 103u8, 105u8,
        115u8, 116u8, 114u8, 121u8, 58u8, 32u8,
    ]
}

/// The confirmation line for the URL that was written.
pub open spec fn set_message(url: Seq<u8>) -> Seq<u8> {
    set_message_prefix() + url
}

/// The complaint line for the name that was not found.
pub open spec fn unknown_message(name: Seq<u8>) -> Seq<u8> {
    unknown_message_prefix() + name
}

/// The confirmation line, as runtime bytes.
fn set_message_bytes(url: &[u8]) -> (r: Vec<u8>)
    ensures
        r@ == set_message(url@),
{
    let mut m: Vec<u8> = Vec::new();
    m.push(82);
    m.push(101);
    m.push(103);
    m.push(105);
    m.push(115);
    m.push(116);
    m.push(114);
    m.push(121);
    m.push(32);
    m.push(104);
    m.push(97);
    m.push(115);
    m.push(32);
    m.push(98);
    m.push(101);
    m.push(101);
    m.push(110);
    m.push(32);
    m.push(115);
    m.push(101);
    m.push(116);
    m.push(32);
    m.push(116);
    m.push(111);
    m.push(58);
    m.push(32);
    assert(m@ =~= set_message_prefix());
    append_bytes(&mut m, url);
    m
}

/// The complaint line, as runtime bytes.
fn unknown_message_bytes(name: &[u8]) -> (r: Vec<u8>)
    ensures
        r@ == unknown_message(name@),
{
    let mut m: Vec<u8> = Vec::new();
    m.push(78);
    m.push(111);
    m.push(116);
    m.push(32);
    m.push(102);
    m.push(105);
    m.push(110);
    m.push(100);
    m.push(32);
    m.push(114);
    m.push(101);
    m.push(103);
    m.push(105);
    m.push(115);
    m.push(116);
    m.push(114);
    m.push(121);
    m.push(58);
    m.push(32);
    assert(m@ =~= unknown_message_prefix());
    append_bytes(&mut m, name);
    m
}

/// What the `current` command prints: the active registry URL, exactly as
/// the configuration text stores it, with no decoration around it; or the
/// fatal complaint that the key is absent.
pub fn run_current(config: &[u8]) -> (r: Result<Vec<u8>, Error>)
    ensures
        match r {
            Ok(v) => lookup_kv(config@, registry_key()) == Some(v@),
            Err(e) => e == Error::MissingKey && lookup_kv(config@, registry_key()) is None,
        },
{
    match get_current(config) {
        Some(v) => Ok(v),
        None => Err(Error::MissingKey),
    }
}

/// What the `use` command leaves behind.
pub enum UseOutcome {
    /// The name was found: the configuration text to write back, with only
    /// the `registry` line changed, and the confirmation to print.
    Updated { config: Vec<u8>, message: Vec<u8> },
    /// The name was not found: nothing to write back, only the complaint
    /// to print on the error stream, naming the missing registry.
    Unknown { message: Vec<u8> },
}

/// Switch the active registry to the entry named `name`. A known name yields
/// the rewritten configuration text and a confirmation; an unknown one
/// yields no text at all, so the stored configuration stays byte for byte
/// what it was.
pub fn run_use(table: &RegistryTable, name: &[u8], config: &[u8]) -> (r: UseOutcome)
    ensures
        match r {
            UseOutcome::Updated { config: c, message: m } => {
                &&& spec_lookup(table.entries@, name@) is Some
                &&& c@ == set_kv(
                    config@,
                    registry_key(),
                    spec_lookup(table.entries@, name@).unwrap().url@,
                )
                &&& m@ == set_message(spec_lookup(table.entries@, name@).unwrap().url@)
            },
            UseOutcome::Unknown { message: m } => {
                &&& !has_name(table.entries@, name@)
                &&& m@ == unknown_message(name@)
            },
        },
{
    match table.lookup(name) {
        Some(i) => {
            let new_config = set_current(config, table.entries[i].url.as_slice());
            let message = set_message_bytes(table.entries[i].url.as_slice());
            UseOutcome::Updated { config: new_config, message }
        },
        None => UseOutcome::Unknown { message: unknown_message_bytes(name) },
    }
}

/// Switching to a known registry and then asking for the current one yields
/// exactly that registry's URL. Asks only that the URL has no embedded
/// newline, which one configuration line cannot carry, and no blank at
/// either end, which the lookup would drop.
pub proof fn lemma_use_then_current(table: RegistryTable, name: Seq<u8>, config: Seq<u8>)
    requires
        spec_lookup(table.entries@, name) is Some,
        value_plain(spec_lookup(table.entries@, name).unwrap().url@),
    ensures
        lookup_kv(
            set_kv(config, registry_key(), spec_lookup(table.entries@, name).unwrap().url@),
            registry_key(),
        ) == Some(spec_lookup(table.entries@, name).unwrap().url@),
{
    lemma_current_round_trip(config, spec_lookup(table.entries@, name).unwrap().url@);
}

/// Switching to the same known registry twice leaves the configuration text
/// the first switch left, byte for byte.
pub proof fn lemma_use_idempotent(table: RegistryTable, name: Seq<u8>, config: Seq<u8>)
    requires
        spec_lookup(table.entries@, name) is Some,
        value_ok(spec_lookup(table.entries@, name).unwrap().url@),
    ensures
        set_kv(
            set_kv(config, registry_key(), spec_lookup(table.entries@, name).unwrap().url@),
            registry_key(),
            spec_lookup(table.entries@, name).unwrap().url@,
        ) == set_kv(config, registry_key(), spec_lookup(table.entries@, name).unwrap().url@),
{
    lemma_current_idempotent(config, spec_lookup(table.entries@, name).unwrap().url@);
}

} // verus!
