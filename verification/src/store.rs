//! The in-memory slot store standing in for the host's allocation and
//! persistence primitives: a map from derived addresses to fixed-size
//! records, with the host's occupied-versus-free semantics.

use crate::error::LedgerError;
use vstd::prelude::*;

verus! {

/// One record: the caller-supplied `color` key (immutable after creation,
/// since it is baked into the slot's address) and the mutable balance.
pub struct Ledger {
    /// Caller-supplied key material, also part of the derived address.
    pub color: Vec<u8>,
    /// Mutable payload, only ever overwritten as a whole.
    pub balance: u32,
}

/// The mathematical value of a record.
#[verifier::ext_equal]
pub struct LedgerModel {
    /// The key bytes.
    pub color: Seq<u8>,
    /// The balance.
    pub balance: u32,
}

/// The mathematical value of a stored record.
pub open spec fn ledger_model(l: Ledger) -> LedgerModel {
    LedgerModel { color: l.color@, balance: l.balance }
}

/// One occupied slot: a derived address and the record stored at it.
struct Slot {
    addr: [u8; 32],
    record: Ledger,
}

/// The map described by a sequence of slots, later entries winning.
spec fn slots_map(s: Seq<Slot>) -> Map<Seq<u8>, LedgerModel>
    decreases s.len(),
{
    if s.len() == 0 {
        Map::empty()
    } else {
        slots_map(s.drop_last()).insert(s.last().addr@, ledger_model(s.last().record))
    }
}

/// No two slots of `s` share an address.
spec fn distinct_addrs(s: Seq<Slot>) -> bool {
    forall|p: int, q: int| 0 <= p < q < s.len() ==> s[p].addr@ != s[q].addr@
}

/// An address is in the slot map exactly when some slot holds it.
proof fn lemma_slots_map_contains(s: Seq<Slot>, a: Seq<u8>)
    ensures
        slots_map(s).contains_key(a) <==> exists|i: int| 0 <= i < s.len() && s[i].addr@ == a,
    decreases s.len(),
{
    if s.len() == 0 {
    } else {
        lemma_slots_map_contains(s.drop_last(), a);
        if s.last().addr@ == a {
            assert(s[s.len() - 1].addr@ == a);
        } else {
            if slots_map(s).contains_key(a) {
                let i = choose|i: int|
                    0 <= i < s.drop_last().len() && s.drop_last()[i].addr@ == a;
                assert(s[i].addr@ == a);
            }
            if exists|i: int| 0 <= i < s.len() && s[i].addr@ == a {
                let i = choose|i: int| 0 <= i < s.len() && s[i].addr@ == a;
                assert(s.drop_last()[i].addr@ == a);
            }
        }
    }
}

/// With distinct addresses, the slot map sends each slot's address to that
/// slot's record.
proof fn lemma_slots_map_index(s: Seq<Slot>, i: int)
    requires
        0 <= i < s.len(),
        distinct_addrs(s),
    ensures
        slots_map(s).contains_key(s[i].addr@),
        slots_map(s)[s[i].addr@] == ledger_model(s[i].record),
    decreases s.len(),
{
    if i == s.len() - 1 {
    } else {
        assert(s[i].addr@ != s[s.len() - 1].addr@);
        assert forall|p: int, q: int|
            0 <= p < q < s.drop_last().len() implies s.drop_last()[p].addr@
            != s.drop_last()[q].addr@ by {
            assert(s.drop_last()[p] == s[p]);
            assert(s.drop_last()[q] == s[q]);
        }
        lemma_slots_map_index(s.drop_last(), i);
        assert(s.drop_last()[i] == s[i]);
    }
}

/// Replacing the record of one slot, address unchanged, updates exactly that
/// address in the slot map.
proof fn lemma_slots_map_update(s: Seq<Slot>, i: int, slot2: Slot)
    requires
        0 <= i < s.len(),
        distinct_addrs(s),
        slot2.addr@ == s[i].addr@,
    ensures
        slots_map(s.update(i, slot2)) == slots_map(s).insert(
            slot2.addr@,
            ledger_model(slot2.record),
        ),
    decreases s.len(),
{
    let su = s.update(i, slot2);
    if i == s.len() - 1 {
        assert(su.drop_last() =~= s.drop_last());
        assert(su.last() == slot2);
        assert(slots_map(s.drop_last()).insert(s.last().addr@, ledger_model(s.last().record))
            .insert(slot2.addr@, ledger_model(slot2.record)) =~~= slots_map(s.drop_last()).insert(
            slot2.addr@,
            ledger_model(slot2.record),
        ));
    } else {
        assert(su.drop_last() =~= s.drop_last().update(i, slot2));
        assert(su.last() == s.last());
        assert forall|p: int, q: int|
            0 <= p < q < s.drop_last().len() implies s.drop_last()[p].addr@
            != s.drop_last()[q].addr@ by {
            assert(s.drop_last()[p] == s[p]);
            assert(s.drop_last()[q] == s[q]);
        }
        assert(s.drop_last()[i] == s[i]);
        lemma_slots_map_update(s.drop_last(), i, slot2);
        assert(s[i].addr@ != s[s.len() - 1].addr@);
        assert(slots_map(s.drop_last()).insert(slot2.addr@, ledger_model(slot2.record)).insert(
            s.last().addr@,
            ledger_model(s.last().record),
        ) =~~= slots_map(s.drop_last()).insert(s.last().addr@, ledger_model(s.last().record))
            .insert(slot2.addr@, ledger_model(slot2.record)));
    }
}

/// Byte-for-byte equality of two addresses.
pub(crate) fn addr_eq(a: &[u8; 32], b: &[u8; 32]) -> (r: bool)
    ensures
        r <==> a@ == b@,
{
    let mut i: usize = 0;
    while i < 32
        invariant
            i <= 32,
            forall|j: int| 0 <= j < i ==> a@[j] == b@[j],
        decreases 32 - i,
    {
        if a[i] != b[i] {
            return false;
        }
        i += 1;
    }
    proof {
        assert(a@ =~= b@);
    }
    true
}

/// The host's storage for one program: every slot it has allocated, each
/// addressed by the derived address it was allocated at.
pub struct SlotStore {
    program_id: [u8; 32],
    slots: Vec<Slot>,
}

impl SlotStore {
    /// The identity of the program whose slots this store holds.
    pub closed spec fn program_id_spec(self) -> Seq<u8> {
        self.program_id@
    }

    /// The records held, as a map from derived address to record value.
    pub closed spec fn contents(self) -> Map<Seq<u8>, LedgerModel> {
        slots_map(self.slots@)
    }

    /// Well-formed: no address is allocated twice.
    pub closed spec fn wf(self) -> bool {
        distinct_addrs(self.slots@)
    }

    /// An empty store for the given program identity.
    pub fn new(program_id: [u8; 32]) -> (r: SlotStore)
        ensures
            r.wf(),
            r.program_id_spec() == program_id@,
            r.contents() == Map::<Seq<u8>, LedgerModel>::empty(),
    {
        let r = SlotStore { program_id, slots: Vec::new() };
        proof {
            assert(r.contents() =~= Map::<Seq<u8>, LedgerModel>::empty());
        }
        r
    }

    /// The program identity this store was made for.
    pub fn program_id(&self) -> (r: [u8; 32])
        ensures
            r@ == self.program_id_spec(),
    {
        self.program_id
    }

    /// The position of the slot at `addr`, if one is allocated.
    fn find_slot(&self, addr: &[u8; 32]) -> (r: Option<usize>)
        ensures
            match r {
                Some(i) => i < self.slots@.len() && self.slots@[i as int].addr@ == addr@,
                None => forall|j: int|
                    0 <= j < self.slots@.len() ==> self.slots@[j].addr@ != addr@,
            },
    {
        let mut i: usize = 0;
        while i < self.slots.len()
            invariant
                i <= self.slots@.len(),
                forall|j: int| 0 <= j < i ==> self.slots@[j].addr@ != addr@,
            decreases self.slots@.len() - i,
        {
            if addr_eq(&self.slots[i].addr, addr) {
                return Some(i);
            }
            i += 1;
        }
        None
    }

    /// Whether a record is allocated at `addr`.
    pub fn is_allocated(&self, addr: &[u8; 32]) -> (r: bool)
        requires
            self.wf(),
        ensures
            r == self.contents().contains_key(addr@),
    {
        proof {
            lemma_slots_map_contains(self.slots@, addr@);
        }
        match self.find_slot(addr) {
            Some(i) => {
                proof {
                    assert(self.slots@[i as int].addr@ == addr@);
                    assert(exists|j: int|
                        0 <= j < self.slots@.len() && self.slots@[j].addr@ == addr@);
                }
                true
            },
            None => false,
        }
    }

    /// The record at `addr`, if one is allocated.
    pub fn read(&self, addr: &[u8; 32]) -> (r: Option<&Ledger>)
        requires
            self.wf(),
        ensures
            match r {
                Some(l) => self.contents().contains_key(addr@) && ledger_model(*l)
                    == self.contents()[addr@],
                None => !self.contents().contains_key(addr@),
            },
    {
        proof {
            lemma_slots_map_contains(self.slots@, addr@);
        }
        match self.find_slot(addr) {
            Some(i) => {
                proof {
                    lemma_slots_map_index(self.slots@, i as int);
                }
                Some(&self.slots[i].record)
            },
            None => None,
        }
    }

    /// Allocates the slot at `addr` and writes `record` into it. Refuses an
    /// address that is already occupied, then a caller who cannot fund the
    /// allocation; a failed allocation leaves the store unchanged.
    pub fn allocate(&mut self, addr: [u8; 32], funded: bool, record: Ledger) -> (r: Result<
        (),
        LedgerError,
    >)
        requires
            old(self).wf(),
        ensures
            final(self).wf(),
            final(self).program_id_spec() == old(self).program_id_spec(),
            old(self).contents().contains_key(addr@) ==> r == Err::<(), LedgerError>(
                LedgerError::AlreadyExists,
            ) && final(self).contents() == old(self).contents(),
            !old(self).contents().contains_key(addr@) && !funded ==> r == Err::<(), LedgerError>(
                LedgerError::InsufficientFunding,
            ) && final(self).contents() == old(self).contents(),
            !old(self).contents().contains_key(addr@) && funded ==> r == Ok::<(), LedgerError>(())
                && final(self).contents() == old(self).contents().insert(
                addr@,
                ledger_model(record),
            ),
    {
        proof {
            lemma_slots_map_contains(self.slots@, addr@);
        }
        match self.find_slot(&addr) {
            Some(i) => {
                proof {
                    assert(self.slots@[i as int].addr@ == addr@);
                    assert(exists|j: int|
                        0 <= j < self.slots@.len() && self.slots@[j].addr@ == addr@);
                }
                Err(LedgerError::AlreadyExists)
            },
            None => {
                if !funded {
                    Err(LedgerError::InsufficientFunding)
                } else {
                    let ghost old_slots = self.slots@;
                    let ghost new_model = ledger_model(record);
                    self.slots.push(Slot { addr, record });
                    proof {
                        assert(self.slots@.drop_last() =~= old_slots);
                        assert(self.slots@.last().addr@ == addr@);
                        assert(ledger_model(self.slots@.last().record) == new_model);
                        assert(slots_map(self.slots@) == slots_map(old_slots).insert(
                            addr@,
                            new_model,
                        ));
                        assert forall|p: int, q: int|
                            0 <= p < q < self.slots@.len() implies self.slots@[p].addr@
                            != self.slots@[q].addr@ by {
                            if q < self.slots@.len() - 1 {
                                assert(old_slots[p].addr@ != old_slots[q].addr@);
                            } else {
                                assert(self.slots@[p].addr@ != addr@);
                            }
                        }
                    }
                    Ok(())
                }
            },
        }
    }

    /// Overwrites the balance of the record at `addr` with `new_balance`,
    /// leaving its `color` untouched. Refuses an address with no record; a
    /// failed write leaves the store unchanged.
    pub fn write_balance(&mut self, addr: &[u8; 32], new_balance: u32) -> (r: Result<
        (),
        LedgerError,
    >)
        requires
            old(self).wf(),
        ensures
            final(self).wf(),
            final(self).program_id_spec() == old(self).program_id_spec(),
            !old(self).contents().contains_key(addr@) ==> r == Err::<(), LedgerError>(
                LedgerError::NotFound,
            ) && final(self).contents() == old(self).contents(),
            old(self).contents().contains_key(addr@) ==> r == Ok::<(), LedgerError>(())
                && final(self).contents() == old(self).contents().insert(
                addr@,
                (LedgerModel { color: old(self).contents()[addr@].color, balance: new_balance }),
            ),
    {
        proof {
            lemma_slots_map_contains(self.slots@, addr@);
        }
        match self.find_slot(addr) {
            None => Err(LedgerError::NotFound),
            Some(i) => {
                proof {
                    assert(exists|j: int|
                        0 <= j < self.slots@.len() && self.slots@[j].addr@ == addr@);
                    lemma_slots_map_index(self.slots@, i as int);
                }
                let slot = &mut self.slots[i];
                slot.record.balance = new_balance;
                proof {
                    let su = self.slots@;
                    let s0 = old(self).slots@;
                    assert(su == s0.update(i as int, su[i as int]));
                    assert(su[i as int].addr@ == s0[i as int].addr@);
                    lemma_slots_map_update(s0, i as int, su[i as int]);
                    assert(ledger_model(su[i as int].record) == (LedgerModel {
                        color: s0[i as int].record.color@,
                        balance: new_balance,
                    }));
                    assert(s0[i as int].record.color@ == old(self).contents()[addr@].color);
                    assert forall|p: int, q: int|
                        0 <= p < q < su.len() implies su[p].addr@ != su[q].addr@ by {
                        assert(s0[p].addr@ != s0[q].addr@);
                    }
                }
                Ok(())
            },
        }
    }
}

} // verus!
