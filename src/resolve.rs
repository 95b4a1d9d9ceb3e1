//! Voyage identifiers as text, and resolving an abbreviated identifier to
//! the one voyage it denotes.

use vstd::prelude::*;
use vstd::arithmetic::power::pow;
use crate::codec::hex_of;
use crate::model::Voyage;
use crate::storage::{find_voyage, Storage};
use crate::ledger::VoyageDb;
use crate::text::{decimal, joined, push_decimal};

verus! {

/// Byte `k` (0 = most significant) of the 16 big-endian bytes of `id`.
pub open spec fn id_byte(id: u128, k: int) -> u8 {
    ((id as int / pow(256, (15 - k) as nat)) % 256) as u8
}

/// The hyphenated lowercase hex rendering of an identifier: 8-4-4-4-12 digits.
pub open spec fn uuid_text(id: u128) -> Seq<char> {
    let b = Seq::new(16, |k: int| id_byte(id, k));
    hex_of(b.subrange(0, 4)) + "-"@ + hex_of(b.subrange(4, 6)) + "-"@ + hex_of(b.subrange(6, 8)) + "-"@
        + hex_of(b.subrange(8, 10)) + "-"@ + hex_of(b.subrange(10, 16))
}

/// The identifier a full textual UUID denotes, in any form `Uuid::parse_str`
/// accepts; `None` for text that is no full UUID.
pub uninterp spec fn uuid_parsed(s: Seq<char>) -> Option<u128>;

/// Relies on uuid::Uuid::from_u128 and Uuid's Display: the hyphenated
/// lowercase hex of the big-endian bytes.
#[verifier::external_body]
fn uuid_string(id: u128) -> (r: String)
    ensures
        r@ == uuid_text(id),
{
    uuid::Uuid::from_u128(id).to_string()
}

/// A voyage identifier as text: hyphenated lowercase hex, 36 characters.
pub fn voyage_id_text(id: u128) -> (r: String)
    ensures
        r@ == uuid_text(id),
        r@.len() == 36,
{
    proof {
        lemma_uuid_text_len(id);
    }
    uuid_string(id)
}

/// Relies on uuid::Uuid::parse_str: the identifier of a full textual UUID.
#[verifier::external_body]
fn parse_voyage_id(s: &str) -> (r: Option<u128>)
    ensures
        r == uuid_parsed(s@),
{
    uuid::Uuid::parse_str(s).ok().map(|u| u.as_u128())
}

/// An identifier's text has 36 characters.
pub proof fn lemma_uuid_text_len(id: u128)
    ensures
        uuid_text(id).len() == 36,
{
    let b = Seq::new(16, |k: int| id_byte(id, k));
    crate::codec::lemma_hex_len(b.subrange(0, 4));
    crate::codec::lemma_hex_len(b.subrange(4, 6));
    crate::codec::lemma_hex_len(b.subrange(6, 8));
    crate::codec::lemma_hex_len(b.subrange(8, 10));
    crate::codec::lemma_hex_len(b.subrange(10, 16));
    reveal_strlit("-");
}

/// The indices of the voyages whose identifier text starts with `reference`,
/// in storage order.
pub open spec fn prefix_matches(dbs: Seq<VoyageDb>, reference: Seq<char>) -> Seq<int>
    decreases dbs.len(),
{
    if dbs.len() == 0 {
        Seq::empty()
    } else {
        let rest = prefix_matches(dbs.drop_last(), reference);
        if reference.is_prefix_of(uuid_text(dbs.last().voyage.id)) {
            rest.push(dbs.len() - 1)
        } else {
            rest
        }
    }
}

/// The first eight characters of each matching voyage's identifier.
pub open spec fn short_ids(dbs: Seq<VoyageDb>, m: Seq<int>) -> Seq<Seq<char>> {
    m.map_values(|j: int| uuid_text(dbs[j].voyage.id).take(8))
}

/// Whether `t` starts with `p`.
fn starts_with(t: &str, p: &str) -> (r: bool)
    ensures
        r == p@.is_prefix_of(t@),
{
    let n = p.unicode_len();
    if n > t.unicode_len() {
        return false;
    }
    let mut i: usize = 0;
    while i < n
        invariant
            i <= n,
            n == p@.len(),
            n <= t@.len(),
            forall|k: int| 0 <= k < i ==> p@[k] == t@[k],
        decreases n - i,
    {
        if p.get_char(i) != t.get_char(i) {
            return false;
        }
        i = i + 1;
    }
    assert(t@.subrange(0, n as int) =~= p@);
    true
}

/// Finds the voyage an identifier denotes: a full UUID in any accepted form,
/// or a prefix of the hyphenated identifier that exactly one voyage has.
pub fn resolve_voyage(storage: &Storage, reference: &str) -> (r: Result<Voyage, String>)
    ensures
        match uuid_parsed(reference@) {
            Some(id) => match find_voyage(storage.voyages@, id) {
                Some(i) => r matches Ok(v) && v@ == storage.voyages@[i].voyage@,
                None => r matches Err(m) && m@ == "voyage not found: "@ + uuid_text(id),
            },
            None => {
                let m = prefix_matches(storage.voyages@, reference@);
                if m.len() == 1 {
                    r matches Ok(v) && v@ == storage.voyages@[m[0]].voyage@
                } else if m.len() == 0 {
                    r matches Err(e) && e@ == "no voyage matching '"@ + reference@ + "'"@
                } else {
                    r matches Err(e) && e@ == "'"@ + reference@ + "' is ambiguous \u{2014} matches "@ + decimal(
                        m.len(),
                    ) + " voyages: "@ + joined(short_ids(storage.voyages@, m), ", "@)
                }
            },
        },
{
    if let Some(id) = parse_voyage_id(reference) {
        return match storage.load_voyage(id) {
            Ok(v) => Ok(v),
            Err(_) => {
                let mut m = String::from_str("voyage not found: ");
                let t = voyage_id_text(id);
                m.append(t.as_str());
                Err(m)
            },
        };
    }
    let ghost dbs = storage.voyages@;
    let mut found: Vec<usize> = Vec::new();
    let mut shorts = String::new();
    let mut i: usize = 0;
    while i < storage.voyages.len()
        invariant
            i <= storage.voyages.len(),
            dbs == storage.voyages@,
            found@.map_values(|j: usize| j as int) == prefix_matches(dbs.take(i as int), reference@),
            forall|k: int| 0 <= k < found.len() ==> found@[k] < i,
            found.len() == 0 ==> shorts@ == Seq::<char>::empty(),
            found.len() > 0 ==> shorts@ == joined(
                short_ids(dbs, found@.map_values(|j: usize| j as int)),
                ", "@,
            ),
        decreases storage.voyages.len() - i,
    {
        let t = voyage_id_text(storage.voyages[i].voyage.id);
        proof {
            lemma_uuid_text_len(storage.voyages[i as int].voyage.id);
        }
        assert(dbs.take(i as int + 1).drop_last() =~= dbs.take(i as int));
        if starts_with(t.as_str(), reference) {
            let ghost before = found@;
            let short = t.as_str().substring_char(0, 8);
            if found.len() > 0 {
                shorts.append(", ");
            }
            shorts.append(short);
            found.push(i);
            proof {
                let fm = found@.map_values(|j: usize| j as int);
                assert(fm =~= before.map_values(|j: usize| j as int).push(i as int));
                let s = short_ids(dbs, fm);
                assert(s.drop_last() =~= short_ids(dbs, before.map_values(|j: usize| j as int)));
                assert(s.last() == short@);
                if before.len() == 0 {
                    assert(s =~= seq![uuid_text(dbs[i as int].voyage.id).take(8)]);
                } else {
                    assert(joined(s, ", "@) == joined(s.drop_last(), ", "@) + ", "@ + s.last());
                }
            }
        }
        i = i + 1;
    }
    assert(dbs.take(i as int) =~= dbs);
    if found.len() == 1 {
        Ok(storage.voyages[found[0]].voyage.duplicate())
    } else if found.len() == 0 {
        let mut e = String::from_str("no voyage matching '");
        e.append(reference);
        e.append("'");
        Err(e)
    } else {
        let mut e = String::from_str("'");
        e.append(reference);
        e.append("' is ambiguous \u{2014} matches ");
        push_decimal(&mut e, found.len() as u64);
        e.append(" voyages: ");
        e.append(shorts.as_str());
        Err(e)
    }
}

} // verus!
