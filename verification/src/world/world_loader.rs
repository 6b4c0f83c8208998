//! Assembling the world data: the configuration, the item and NPC
//! prototypes keyed by number, and the zones keyed by id. The files are read
//! and parsed by the caller; the prototypes come keyed by their numbers as
//! written in the file.

use vstd::prelude::*;
use std::collections::HashMap;
use crate::styled::chars_of;
use crate::world::world_config::WorldConfig;
use crate::world::world_item::ItemPrototype;
use crate::world::world_zone::Zone;
use crate::world_model::{NpcPrototype, Registry};

verus! {

broadcast use vstd::std_specs::hash::group_hash_axioms;

/// All world data.
pub struct WorldData {
    pub world_config: WorldConfig,
    pub item_prototypes: HashMap<u32, ItemPrototype>,
    pub npc_prototypes: HashMap<u32, NpcPrototype>,
    pub zones: Registry<Zone>,
}

/// Whether every character is an ASCII digit.
pub open spec fn all_digits(s: Seq<char>) -> bool {
    forall|i: int| 0 <= i < s.len() ==> '0' <= #[trigger] s[i] <= '9'
}

/// The number the digits spell in base 10.
pub open spec fn digits_value(s: Seq<char>) -> int
    decreases s.len(),
{
    if s.len() == 0 {
        0
    } else {
        digits_value(s.drop_last()) * 10 + (s.last() as int - '0' as int)
    }
}

/// The digits after an optional leading `+`.
pub open spec fn unsigned_body(s: Seq<char>) -> Seq<char> {
    if s.len() > 0 && s[0] == '+' { s.skip(1) } else { s }
}

/// The number a text spells as `str::parse` reads an unsigned integer
/// type whose largest value is `max`: an optional `+`, then one or more
/// digits, of value at most `max`.
pub open spec fn parsed_unsigned(s: Seq<char>, max: int) -> Option<int> {
    let body = unsigned_body(s);
    if body.len() > 0 && all_digits(body) && digits_value(body) <= max {
        Some(digits_value(body))
    } else {
        None
    }
}

/// The `u32` a text spells as `str::parse::<u32>` reads it.
pub open spec fn parsed_u32(s: Seq<char>) -> Option<u32> {
    match parsed_unsigned(s, u32::MAX as int) {
        Some(v) => Some(v as u32),
        None => None,
    }
}

/// The `u64` a text spells as `str::parse::<u64>` reads it.
pub open spec fn parsed_u64(s: Seq<char>) -> Option<u64> {
    match parsed_unsigned(s, u64::MAX as int) {
        Some(v) => Some(v as u64),
        None => None,
    }
}

/// Digits spell a number no smaller than any of their prefixes.
proof fn lemma_digits_prefix(s: Seq<char>, i: int)
    requires
        all_digits(s),
        0 <= i <= s.len(),
    ensures
        0 <= digits_value(s.take(i)) <= digits_value(s),
    decreases s.len(),
{
    if s.len() > 0 {
        let d = s.drop_last();
        assert(all_digits(d)) by {
            assert forall|j: int| 0 <= j < d.len() implies '0' <= #[trigger] d[j] <= '9' by {
                assert(d[j] == s[j]);
            }
        }
        if i == s.len() {
            assert(s.take(i) =~= s);
            lemma_digits_prefix(d, d.len() as int);
            assert(d.take(d.len() as int) =~= d);
        } else {
            lemma_digits_prefix(d, i);
            assert(d.take(i) =~= s.take(i));
            lemma_digits_prefix(d, d.len() as int);
            assert(d.take(d.len() as int) =~= d);
            assert('0' <= s[s.len() - 1] <= '9');
        }
    }
}

/// Reads a text as `str::parse::<u32>` does.
pub fn parse_u32(s: &str) -> (r: Option<u32>)
    ensures
        r == parsed_u32(s@),
{
    match parse_unsigned(s, u32::MAX as u64) {
        Some(v) => Some(v as u32),
        None => None,
    }
}

/// Reads a text as `str::parse::<u64>` does.
pub fn parse_u64(s: &str) -> (r: Option<u64>)
    ensures
        r == parsed_u64(s@),
{
    parse_unsigned(s, u64::MAX)
}

/// Reads a text as `str::parse` reads an unsigned integer type whose
/// largest value is `max`.
pub fn parse_unsigned(s: &str, max: u64) -> (r: Option<u64>)
    ensures
        r matches Some(v) ==> parsed_unsigned(s@, max as int) == Some(v as int),
        r is None ==> parsed_unsigned(s@, max as int) is None,
{
    let cs = chars_of(s);
    let start: usize = if cs.len() > 0 && cs[0] == '+' { 1 } else { 0 };
    let ghost body = unsigned_body(s@);
    proof {
        assert(body =~= cs@.skip(start as int));
    }
    if start >= cs.len() {
        return None;
    }
    let mut acc: u128 = 0;
    let mut i: usize = start;
    while i < cs.len()
        invariant
            cs@ == s@,
            body == cs@.skip(start as int),
            body == unsigned_body(s@),
            start <= i <= cs.len(),
            acc <= max,
            acc == digits_value(body.take(i - start)),
            all_digits(body.take(i - start)),
        decreases cs.len() - i,
    {
        let c = cs[i];
        if c < '0' || c > '9' {
            proof {
                assert(body[i - start] == c);
                assert(!all_digits(body));
            }
            return None;
        }
        let ghost pre = body.take(i - start);
        let ghost next = body.take(i - start + 1);
        proof {
            assert(next.drop_last() =~= pre);
            assert(next.last() == c);
            assert(all_digits(next)) by {
                assert forall|j: int| 0 <= j < next.len() implies '0' <= #[trigger] next[j] <= '9' by {
                    if j < pre.len() {
                        assert(next[j] == pre[j]);
                    }
                }
            }
        }
        let d = (c as u32 - '0' as u32) as u128;
        acc = acc * 10 + d;
        proof {
            assert(acc == digits_value(next));
        }
        i = i + 1;
        if acc > max as u128 {
            proof {
                if all_digits(body) {
                    lemma_digits_prefix(body, i - start);
                    assert(digits_value(body) > max);
                }
            }
            return None;
        }
    }
    proof {
        assert(body.take(i - start) =~= body);
    }
    Some(acc as u64)
}

/// Prototypes keyed by the numbers their keys spell, a later entry
/// replacing an earlier one under the same number.
pub open spec fn keyed_by_number<V>(entries: Seq<(String, V)>) -> Map<u32, V>
    decreases entries.len(),
{
    if entries.len() == 0 {
        Map::empty()
    } else {
        keyed_by_number(entries.drop_last()).insert(
            parsed_u32(entries.last().0@)->0,
            entries.last().1,
        )
    }
}

/// Whether every key spells a `u32`.
pub open spec fn keys_are_numbers<V>(entries: Seq<(String, V)>) -> bool {
    forall|i: int| 0 <= i < entries.len() ==> (#[trigger] parsed_u32(entries[i].0@)) is Some
}

/// The prototypes keyed by number.
fn number_keys<V>(entries: Vec<(String, V)>) -> (m: HashMap<u32, V>)
    requires
        keys_are_numbers(entries@),
    ensures
        m@ == keyed_by_number(entries@),
{
    let ghost all = entries@;
    let mut m: HashMap<u32, V> = HashMap::new();
    let mut rest = entries;
    let ghost mut done: int = 0;
    proof {
        assert(all.take(0) =~= Seq::<(String, V)>::empty());
        assert(rest@ =~= all.skip(0));
        assert(m@ =~= keyed_by_number(all.take(0)));
    }
    while rest.len() > 0
        invariant
            0 <= done <= all.len(),
            rest@ == all.skip(done),
            m@ == keyed_by_number(all.take(done)),
            keys_are_numbers(all),
        decreases rest.len(),
    {
        let (k, v) = rest.remove(0);
        proof {
            assert(all[done] == (k, v));
            assert(parsed_u32(all[done].0@) is Some);
        }
        let n = match parse_u32(k.as_str()) {
            Some(n) => n,
            None => 0,
        };
        m.insert(n, v);
        proof {
            let t = all.take(done + 1);
            assert(t.drop_last() =~= all.take(done));
            assert(t.last() == all[done]);
            done = done + 1;
            assert(rest@ =~= all.skip(done));
        }
    }
    proof {
        assert(all.take(done) =~= all);
    }
    m
}

/// Zones keyed by id, a later zone replacing an earlier one with the same id.
pub open spec fn zones_by_id(zones: Seq<Zone>) -> Map<Seq<char>, Zone>
    decreases zones.len(),
{
    if zones.len() == 0 {
        Map::empty()
    } else {
        zones_by_id(zones.drop_last()).insert(zones.last().id@, zones.last())
    }
}

/// Assembles the world data from the configuration, the item and NPC
/// prototypes as keyed in their files, and the zones in the order they
/// were read. Every prototype key must spell a number: a file with another
/// key is refused by its loader.
pub fn load_world_data(
    world_config: WorldConfig,
    items: Vec<(String, ItemPrototype)>,
    npcs: Vec<(String, NpcPrototype)>,
    zones: Vec<Zone>,
) -> (d: WorldData)
    requires
        keys_are_numbers(items@),
        keys_are_numbers(npcs@),
    ensures
        d.world_config == world_config,
        d.item_prototypes@ == keyed_by_number(items@),
        d.npc_prototypes@ == keyed_by_number(npcs@),
        forall|id: Seq<char>| #[trigger] d.zones.lookup(id) == (if zones_by_id(zones@).contains_key(id) {
            Some(zones_by_id(zones@)[id])
        } else {
            None::<Zone>
        }),
{
    let item_prototypes = number_keys(items);
    let npc_prototypes = number_keys(npcs);
    let ghost all = zones@;
    let mut registry: Registry<Zone> = Registry::new();
    let mut rest = zones;
    let ghost mut done: int = 0;
    proof {
        assert(all.take(0) =~= Seq::<Zone>::empty());
        assert(rest@ =~= all.skip(0));
        assert forall|id: Seq<char>| #[trigger] registry.lookup(id) == (if zones_by_id(all.take(0)).contains_key(id) {
            Some(zones_by_id(all.take(0))[id])
        } else {
            None::<Zone>
        }) by {
            assert(registry.entries@.len() == 0);
        }
    }
    while rest.len() > 0
        invariant
            0 <= done <= all.len(),
            rest@ == all.skip(done),
            forall|id: Seq<char>| #[trigger] registry.lookup(id) == (if zones_by_id(all.take(done)).contains_key(id) {
                Some(zones_by_id(all.take(done))[id])
            } else {
                None::<Zone>
            }),
        decreases rest.len(),
    {
        let z = rest.remove(0);
        proof { assert(all[done] == z); }
        let key = z.id.clone();
        let ghost zv = z;
        let ghost prev = zones_by_id(all.take(done));
        registry.upsert(key, z);
        proof {
            let t = all.take(done + 1);
            assert(t.drop_last() =~= all.take(done));
            assert(t.last() == zv);
            assert(zones_by_id(t) == prev.insert(zv.id@, zv));
            done = done + 1;
            assert(rest@ =~= all.skip(done));
        }
    }
    proof {
        assert(all.take(done) =~= all);
    }
    WorldData { world_config, item_prototypes, npc_prototypes, zones: registry }
}

} // verus!
