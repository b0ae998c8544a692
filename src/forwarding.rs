use vstd::prelude::*;

use crate::address::ObjectReference;
use crate::plan::Allocator;
use crate::word_table::{word_at, WordTable};

verus! {

pub const FORWARDING_NOT_TRIGGERED_YET: u64 = 0;
pub const BEING_FORWARDED: u64 = 2;
pub const FORWARDED: u64 = 3;
pub const FORWARDING_MASK: u64 = 3;
pub const FORWARDING_BITS: u64 = 2;

/// The two forwarding bits of a status word.
pub open spec fn state_of(word: u64) -> u64 {
    word % 4
}

/// The forwarding pointer held by a status word.
pub open spec fn pointer_of(word: u64) -> u64 {
    (word - word % 4) as u64
}

/// The status word that publishes `ptr` as an object's new address.
pub open spec fn forwarded_word(ptr: u64) -> u64 {
    (ptr - ptr % 4 + FORWARDED) as u64
}

/// The word left by one attempt to forward an object whose word is `word`.
pub open spec fn after_attempt(word: u64) -> u64 {
    if state_of(word) == FORWARDING_NOT_TRIGGERED_YET {
        (word + BEING_FORWARDED) as u64
    } else {
        word
    }
}

/// The statuses returned by `n` attempts in a row on an object whose word is `word`.
pub open spec fn attempts(word: u64, n: nat) -> Seq<u64>
    decreases n,
{
    if n == 0 {
        Seq::empty()
    } else {
        seq![word] + attempts(after_attempt(word), (n - 1) as nat)
    }
}

/// The object that a thread which saw `status`, and then reads `current`,
/// takes as the object's address.
pub open spec fn spin_result(object: u64, status: u64, current: u64) -> u64 {
    let seen = if state_of(status) == BEING_FORWARDED {
        current
    } else {
        status
    };
    if state_of(seen) == FORWARDED {
        pointer_of(seen)
    } else {
        object
    }
}

/// Of any number of attempts to forward an object that nobody has claimed,
/// in whatever order the threads make them, exactly the first one wins:
/// it sees the not-yet-forwarded state and all later ones see a claimed word.
pub proof fn lemma_single_winner(word: u64, n: nat)
    requires
        state_of(word) == FORWARDING_NOT_TRIGGERED_YET,
        n >= 1,
    ensures
        attempts(word, n).len() == n,
        state_of(attempts(word, n)[0]) == FORWARDING_NOT_TRIGGERED_YET,
        forall|i: int| 0 < i < n ==> state_of(#[trigger] attempts(word, n)[i]) != FORWARDING_NOT_TRIGGERED_YET,
{
    let w2 = after_attempt(word);
    assert(state_of(w2) == BEING_FORWARDED);
    lemma_claimed_stays(w2, (n - 1) as nat);
    lemma_attempts_len(w2, (n - 1) as nat);
    assert forall|i: int| 0 < i < n implies state_of(#[trigger] attempts(word, n)[i])
        != FORWARDING_NOT_TRIGGERED_YET by {
        assert(attempts(word, n)[i] == attempts(w2, (n - 1) as nat)[i - 1]);
    }
}

proof fn lemma_attempts_len(word: u64, n: nat)
    ensures
        attempts(word, n).len() == n,
    decreases n,
{
    if n > 0 {
        lemma_attempts_len(after_attempt(word), (n - 1) as nat);
    }
}

proof fn lemma_claimed_stays(word: u64, n: nat)
    requires
        state_of(word) != FORWARDING_NOT_TRIGGERED_YET,
    ensures
        forall|i: int| 0 <= i < n ==> #[trigger] attempts(word, n)[i] == word,
    decreases n,
{
    lemma_attempts_len(word, n);
    if n > 0 {
        lemma_claimed_stays(word, (n - 1) as nat);
        lemma_attempts_len(word, (n - 1) as nat);
        assert forall|i: int| 0 <= i < n implies #[trigger] attempts(word, n)[i] == word by {
            if i > 0 {
                assert(attempts(word, n)[i] == attempts(word, (n - 1) as nat)[i - 1]);
            }
        }
    }
}

/// Once the winner has published the new address `ptr`, every thread that
/// lost the race, whatever status it saw, takes `ptr` as the object's address.
pub proof fn lemma_losers_agree(object: u64, word: u64, ptr: u64)
    requires
        state_of(word) == FORWARDING_NOT_TRIGGERED_YET,
        ptr % 4 == 0,
    ensures
        spin_result(object, after_attempt(word), forwarded_word(ptr)) == ptr,
        spin_result(object, forwarded_word(ptr), forwarded_word(ptr)) == ptr,
{
}

/// A published forwarding word decodes to the forwarded state and to the
/// new address it was made from.
pub proof fn lemma_forwarding_round_trip(ptr: u64)
    requires
        ptr % 4 == 0,
    ensures
        state_of(forwarded_word(ptr)) == FORWARDED,
        pointer_of(forwarded_word(ptr)) == ptr,
{
}

/// No object of the table is left in the being-forwarded state: every
/// claim is settled before the claiming call returns.
pub open spec fn none_being_forwarded(m: Map<u64, u64>) -> bool {
    forall|k: u64| state_of(#[trigger] word_at(m, k)) != BEING_FORWARDED
}

pub proof fn lemma_settle_claim(m: Map<u64, u64>, key: u64, w: u64)
    requires
        forall|k: u64| k != key ==> state_of(#[trigger] word_at(m, k)) != BEING_FORWARDED,
        state_of(w) != BEING_FORWARDED,
    ensures
        none_being_forwarded(m.insert(key, w)),
{
    assert forall|k: u64| state_of(#[trigger] word_at(m.insert(key, w), k)) != BEING_FORWARDED by {
        if k != key {
            assert(word_at(m.insert(key, w), k) == word_at(m, k));
        }
    }
}

/// The host's capability to copy an object to a new place.
pub trait ObjectCopier {
    fn copy(&mut self, object: ObjectReference, allocator: Allocator) -> ObjectReference;
}

/// Claim the object for forwarding. Returns the status word seen before
/// the claim: the caller won the race when its state is not-yet-forwarded.
pub fn attempt_to_forward(table: &mut WordTable, object: ObjectReference) -> (r: u64)
    ensures
        r == old(table).at(object.value),
        final(table).view() == if state_of(r) == FORWARDING_NOT_TRIGGERED_YET {
            old(table).view().insert(object.value, after_attempt(r))
        } else {
            old(table).view()
        },
{
    let old_value = table.read(object.value);
    if old_value % 4 != FORWARDING_NOT_TRIGGERED_YET {
        return old_value;
    }
    table.write(object.value, old_value + BEING_FORWARDED);
    old_value
}

/// Used by a thread that lost the race: wait while the object is being
/// forwarded, then return its new address, or the object itself when it
/// was not moved after all.
pub fn spin_and_get_forwarded_object(
    table: &WordTable,
    object: ObjectReference,
    status_word: u64,
) -> (r: ObjectReference)
    requires
        state_of(table.at(object.value)) != BEING_FORWARDED,
    ensures
        r.value == spin_result(object.value, status_word, table.at(object.value)),
{
    let ghost seen = status_word;
    let mut status_word = status_word;
    while status_word % 4 == BEING_FORWARDED
        invariant
            state_of(table.at(object.value)) != BEING_FORWARDED,
            spin_result(object.value, status_word, table.at(object.value)) == spin_result(
                object.value,
                seen,
                table.at(object.value),
            ),
        decreases (if state_of(status_word) == BEING_FORWARDED {
            1int
        } else {
            0int
        }),
    {
        status_word = table.read(object.value);
    }
    if status_word % 4 == FORWARDED {
        extract_forwarding_pointer(status_word)
    } else {
        object
    }
}

/// Used by the thread that won the race: copy the object and publish its
/// new address in the old object's status word. Returns the address as
/// the published word gives it, which is what every other thread reads.
pub fn forward_object<C: ObjectCopier>(
    table: &mut WordTable,
    object: ObjectReference,
    allocator: Allocator,
    copier: &mut C,
) -> (r: ObjectReference)
    ensures
        final(table).view() == old(table).view().insert(object.value, forwarded_word(r.value)),
        r.value % 4 == 0,
{
    let new_object = copier.copy(object, allocator);
    set_forwarding_pointer(table, object, new_object);
    let r = extract_forwarding_pointer(new_object.value - new_object.value % 4 + FORWARDED);
    r
}

/// Publish `ptr` as the new address of `object`.
pub fn set_forwarding_pointer(table: &mut WordTable, object: ObjectReference, ptr: ObjectReference)
    ensures
        final(table).view() == old(table).view().insert(object.value, forwarded_word(ptr.value)),
{
    table.write(object.value, ptr.value - ptr.value % 4 + FORWARDED);
}

pub fn is_forwarded(table: &WordTable, object: ObjectReference) -> (r: bool)
    ensures
        r == (state_of(table.at(object.value)) == FORWARDED),
{
    table.read(object.value) % 4 == FORWARDED
}

pub fn is_forwarded_or_being_forwarded(table: &WordTable, object: ObjectReference) -> (r: bool)
    ensures
        r == (state_of(table.at(object.value)) != FORWARDING_NOT_TRIGGERED_YET),
{
    table.read(object.value) % 4 != FORWARDING_NOT_TRIGGERED_YET
}

pub fn state_is_forwarded_or_being_forwarded(header: u64) -> (r: bool)
    ensures
        r == (state_of(header) != FORWARDING_NOT_TRIGGERED_YET),
{
    header % 4 != FORWARDING_NOT_TRIGGERED_YET
}

pub fn state_is_being_forwarded(header: u64) -> (r: bool)
    ensures
        r == (state_of(header) == BEING_FORWARDED),
{
    header % 4 == BEING_FORWARDED
}

/// Return the object's status to not-yet-forwarded, keeping its other bits.
pub fn clear_forwarding_bits(table: &mut WordTable, object: ObjectReference)
    ensures
        final(table).view() == old(table).view().insert(
            object.value,
            pointer_of(old(table).at(object.value)),
        ),
        state_of(word_at(final(table).view(), object.value)) == FORWARDING_NOT_TRIGGERED_YET,
{
    let w = table.read(object.value);
    table.write(object.value, w - w % 4);
}

pub fn extract_forwarding_pointer(forwarding_word: u64) -> (r: ObjectReference)
    ensures
        r.value == pointer_of(forwarding_word),
{
    ObjectReference { value: forwarding_word - forwarding_word % 4 }
}

} // verus!
