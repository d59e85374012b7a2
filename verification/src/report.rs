//! The boot-protocol keyboard report: one byte of modifier bits, one
//! reserved byte and six key slots.

use vstd::prelude::*;
use crate::key_code::{as_modifier_bit, is_modifier, modifier, modifier_mask, plain};

verus! {

/// The number of key slots of a report.
pub const SLOTS: usize = 6;

/// The modifier byte for a list of key codes: the bits of all modifiers in it.
pub open spec fn modifiers_of(codes: Seq<u8>) -> u8
    decreases codes.len(),
{
    if codes.len() == 0 {
        0
    } else {
        modifiers_of(codes.drop_last()) | modifier_mask(codes.last())
    }
}

/// The key codes of a list that take key slots, in order.
pub open spec fn plain_keys(codes: Seq<u8>) -> Seq<u8>
    decreases codes.len(),
{
    if codes.len() == 0 {
        Seq::empty()
    } else if plain(codes.last()) {
        plain_keys(codes.drop_last()).push(codes.last())
    } else {
        plain_keys(codes.drop_last())
    }
}

/// The eight bytes of the report for a list of key codes: the modifier
/// byte, a zero, and the first six plain key codes, with zeros where there
/// are fewer than six.
pub open spec fn report_bytes(codes: Seq<u8>) -> Seq<u8> {
    Seq::new(
        8,
        |i: int|
            if i == 0 {
                modifiers_of(codes)
            } else if 2 <= i && i - 2 < plain_keys(codes).len() {
                plain_keys(codes)[i - 2]
            } else {
                0
            },
    )
}

/// Whether some byte of a report is not zero.
pub open spec fn any_active(bytes: Seq<u8>) -> bool {
    exists|i: int| 0 <= i < bytes.len() && #[trigger] bytes[i] != 0
}

/// A keyboard report.
#[derive(Clone, Copy, Debug)]
pub struct HidReport {
    bytes: [u8; 8],
}

impl View for HidReport {
    type V = Seq<u8>;

    closed spec fn view(&self) -> Seq<u8> {
        self.bytes@
    }
}

impl HidReport {
    /// The report with no key and no modifier.
    pub fn empty() -> (report: HidReport)
        ensures
            report@ == Seq::new(8, |i: int| 0u8),
    {
        let report = HidReport { bytes: [0u8; 8] };
        report
    }

    /// The report for the key codes that are held: modifiers become bits
    /// of the first byte, the other keys fill the six slots in the order
    /// given, and keys beyond the sixth are left out.
    pub fn build(codes: &Vec<u8>) -> (report: HidReport)
        ensures
            report@ == report_bytes(codes@),
    {
        let mut bytes: [u8; 8] = [0u8; 8];
        let mut filled: usize = 0;
        let mut i: usize = 0;
        while i < codes.len()
            invariant
                i <= codes@.len(),
                filled <= 6,
                filled <= plain_keys(codes@.take(i as int)).len(),
                filled < 6 ==> filled == plain_keys(codes@.take(i as int)).len(),
                bytes@[0] == modifiers_of(codes@.take(i as int)),
                bytes@[1] == 0,
                forall|j: int|
                    2 <= j < 2 + filled ==> #[trigger] bytes@[j] == plain_keys(codes@.take(i as int))[j - 2],
                forall|j: int| 2 + filled <= j < 8 ==> #[trigger] bytes@[j] == 0,
            decreases codes@.len() - i,
        {
            let code = codes[i];
            proof {
                assert(codes@.take(i + 1).drop_last() == codes@.take(i as int));
            }
            if is_modifier(code) {
                let bit = as_modifier_bit(code);
                bytes[0] = bytes[0] | bit;
            } else if code != 0 {
                if filled < 6 {
                    bytes[2 + filled] = code;
                    filled += 1;
                }
            }
            proof {
                if !modifier(code) {
                    lemma_or_zero(modifiers_of(codes@.take(i as int)));
                }
            }
            i += 1;
        }
        proof {
            assert(codes@.take(codes@.len() as int) == codes@);
        }
        let report = HidReport { bytes };
        report
    }

    /// The eight bytes as they go over the wire.
    pub fn as_bytes(&self) -> (bytes: [u8; 8])
        ensures
            bytes@ == self@,
    {
        self.bytes
    }

    /// Whether the report shows any key or modifier.
    pub fn is_active(&self) -> (active: bool)
        ensures
            active == any_active(self@),
    {
        let mut i: usize = 0;
        while i < 8
            invariant
                i <= 8,
                forall|k: int| 0 <= k < i ==> self.bytes@[k] == 0,
            decreases 8 - i,
        {
            if self.bytes[i] != 0 {
                return true;
            }
            i += 1;
        }
        false
    }

    /// Whether two reports are the same byte for byte.
    pub fn same_as(&self, other: &HidReport) -> (same: bool)
        ensures
            same == (self@ == other@),
    {
        let mut i: usize = 0;
        while i < 8
            invariant
                i <= 8,
                forall|k: int| 0 <= k < i ==> self.bytes@[k] == other.bytes@[k],
            decreases 8 - i,
        {
            if self.bytes[i] != other.bytes[i] {
                return false;
            }
            i += 1;
        }
        assert(self@ =~= other@);
        true
    }
}

proof fn lemma_or_zero(x: u8)
    ensures
        x | 0 == x,
{
    assert(x | 0 == x) by (bit_vector);
}

/// Whether bit `b` of the byte `x` is set.
pub open spec fn bit_set(x: u8, b: u8) -> bool {
    (x >> b) & 1 == 1
}

proof fn lemma_bit_of_or(x: u8, n: u8, b: u8)
    requires
        n < 8,
        b < 8,
    ensures
        bit_set(x | (1u8 << n), b) == (bit_set(x, b) || n == b),
        x | (1u8 << n) != 0,
{
    assert(((x | (1u8 << n)) >> b) & 1 == 1 <==> ((x >> b) & 1 == 1 || n == b)) by (bit_vector)
        requires
            n < 8,
            b < 8,
    ;
    assert(x | (1u8 << n) != 0) by (bit_vector)
        requires
            n < 8,
    ;
}

proof fn lemma_bit_of_zero(b: u8)
    requires
        b < 8,
    ensures
        !bit_set(0, b),
{
    assert((0u8 >> b) & 1 == 0) by (bit_vector)
        requires
            b < 8,
    ;
}

/// The modifier byte has a bit set exactly for the modifiers in the list:
/// bit `b` stands for the key code `0xE0 + b`.
pub proof fn lemma_modifier_bits(codes: Seq<u8>, b: u8)
    requires
        b < 8,
    ensures
        bit_set(modifiers_of(codes), b) <==> codes.contains((0xE0 + b) as u8),
    decreases codes.len(),
{
    let wanted = (0xE0 + b) as u8;
    if codes.len() == 0 {
        lemma_bit_of_zero(b);
    } else {
        let earlier = codes.drop_last();
        let last = codes.last();
        lemma_modifier_bits(earlier, b);
        if modifier(last) {
            lemma_bit_of_or(modifiers_of(earlier), (last - 0xE0) as u8, b);
        } else {
            lemma_or_zero(modifiers_of(earlier));
        }
        if codes.contains(wanted) {
            let i = choose|i: int| 0 <= i < codes.len() && codes[i] == wanted;
            if i < earlier.len() {
                assert(earlier[i] == wanted);
            }
        }
    }
}

/// The modifier byte is zero exactly if the list holds no modifier.
pub proof fn lemma_no_modifier(codes: Seq<u8>)
    ensures
        modifiers_of(codes) == 0 <==> forall|i: int| 0 <= i < codes.len() ==> !modifier(#[trigger] codes[i]),
    decreases codes.len(),
{
    if codes.len() > 0 {
        let earlier = codes.drop_last();
        let last = codes.last();
        lemma_no_modifier(earlier);
        if modifier(last) {
            lemma_bit_of_or(modifiers_of(earlier), (last - 0xE0) as u8, 0);
        } else {
            lemma_or_zero(modifiers_of(earlier));
        }
        assert forall|i: int| 0 <= i < earlier.len() implies earlier[i] == codes[i] by {}
        if forall|i: int| 0 <= i < codes.len() ==> !modifier(#[trigger] codes[i]) {
            assert forall|i: int| 0 <= i < earlier.len() implies !modifier(#[trigger] earlier[i]) by {}
        }
        if modifiers_of(codes) == 0 {
            assert forall|i: int| 0 <= i < codes.len() implies !modifier(#[trigger] codes[i]) by {}
        }
    }
}

/// The plain keys of a list are its plain key codes, in their order: none
/// is added, and none occurs more often than in the list.
pub proof fn lemma_plain_keys(codes: Seq<u8>)
    ensures
        plain_keys(codes).len() <= codes.len(),
        forall|k: u8| #[trigger] plain_keys(codes).contains(k) <==> codes.contains(k) && plain(k),
        codes.no_duplicates() ==> plain_keys(codes).no_duplicates(),
        (forall|i: int| 0 <= i < codes.len() ==> plain(#[trigger] codes[i])) ==> plain_keys(codes) == codes,
    decreases codes.len(),
{
    if codes.len() > 0 {
        let earlier = codes.drop_last();
        let last = codes.last();
        let keys = plain_keys(earlier);
        let out = plain_keys(codes);
        lemma_plain_keys(earlier);
        assert forall|k: u8| #[trigger] out.contains(k) <==> codes.contains(k) && plain(k) by {
            if out.contains(k) {
                let x = choose|x: int| 0 <= x < out.len() && out[x] == k;
                if x < keys.len() {
                    assert(keys.contains(k));
                }
            }
            if codes.contains(k) && plain(k) {
                let i = choose|i: int| 0 <= i < codes.len() && codes[i] == k;
                if i < earlier.len() {
                    assert(earlier[i] == k);
                    assert(keys.contains(k));
                    let x = choose|x: int| 0 <= x < keys.len() && keys[x] == k;
                    assert(out[x] == k);
                } else {
                    assert(out[out.len() - 1] == k);
                }
            }
        }
        if codes.no_duplicates() {
            assert forall|i: int, j: int| 0 <= i < earlier.len() && 0 <= j < earlier.len() && i != j implies earlier[i]
                != earlier[j] by {}
            if plain(last) {
                assert(!keys.contains(last));
                assert forall|i: int, j: int| 0 <= i < out.len() && 0 <= j < out.len() && i != j implies out[i]
                    != out[j] by {}
            }
        }
        if forall|i: int| 0 <= i < codes.len() ==> plain(#[trigger] codes[i]) {
            assert forall|i: int| 0 <= i < earlier.len() implies plain(#[trigger] earlier[i]) by {}
        }
    }
}

/// With more than six keys held the report shows the first six and drops
/// the rest: the six slots are the first six plain key codes of the list.
pub proof fn lemma_excess_keys_are_dropped(codes: Seq<u8>)
    requires
        plain_keys(codes).len() >= 6,
    ensures
        report_bytes(codes).subrange(2, 8) == plain_keys(codes).take(6),
{
}

/// With fewer than six keys held the report shows them all, followed by
/// empty slots.
pub proof fn lemma_few_keys_all_shown(codes: Seq<u8>)
    requires
        plain_keys(codes).len() <= 6,
    ensures
        report_bytes(codes).subrange(2, 2 + plain_keys(codes).len() as int) == plain_keys(codes),
        forall|i: int| 2 + plain_keys(codes).len() <= i < 8 ==> #[trigger] report_bytes(codes)[i] == 0,
{
}

/// Of more than six different plain keys the report holds exactly the first
/// six: its slots are the first six of the list, no modifier bit is set, and
/// none of the later keys occurs in it.
pub proof fn lemma_seventh_key_is_left_out(codes: Seq<u8>, j: int)
    requires
        codes.no_duplicates(),
        forall|i: int| 0 <= i < codes.len() ==> plain(#[trigger] codes[i]),
        6 <= j < codes.len(),
    ensures
        report_bytes(codes).subrange(2, 8) == codes.take(6),
        report_bytes(codes)[0] == 0,
        !report_bytes(codes).contains(codes[j]),
{
    lemma_plain_keys(codes);
    lemma_excess_keys_are_dropped(codes);
    lemma_no_modifier(codes);
    let bytes = report_bytes(codes);
    assert forall|x: int| 0 <= x < bytes.len() implies bytes[x] != codes[j] by {
        if 2 <= x {
            assert(bytes[x] == codes[x - 2]);
        }
    }
}

/// A slot in use holds a plain key of the list: modifiers take no slot, and
/// nothing gets into a slot that is not held.
pub proof fn lemma_slots_hold_plain_keys(codes: Seq<u8>, i: int)
    requires
        2 <= i < 8,
        report_bytes(codes)[i] != 0,
    ensures
        plain(report_bytes(codes)[i]),
        codes.contains(report_bytes(codes)[i]),
{
    lemma_plain_keys(codes);
    assert(plain_keys(codes).contains(plain_keys(codes)[i - 2]));
}

/// The slots of a report never hold a key twice: if no key code occurs
/// twice in the list, two slots that are in use hold different key codes.
pub proof fn lemma_slots_distinct(codes: Seq<u8>, i: int, j: int)
    requires
        codes.no_duplicates(),
        2 <= i < j < 8,
        report_bytes(codes)[i] != 0,
        report_bytes(codes)[j] != 0,
    ensures
        report_bytes(codes)[i] != report_bytes(codes)[j],
{
    lemma_plain_keys(codes);
}

/// A report is active exactly if some key code of the list is not zero.
pub proof fn lemma_active_report(codes: Seq<u8>)
    ensures
        any_active(report_bytes(codes)) <==> exists|i: int| 0 <= i < codes.len() && #[trigger] codes[i] != 0,
{
    lemma_plain_keys(codes);
    lemma_no_modifier(codes);
    let bytes = report_bytes(codes);
    let keys = plain_keys(codes);
    if any_active(bytes) {
        let x = choose|x: int| 0 <= x < bytes.len() && #[trigger] bytes[x] != 0;
        if x != 0 {
            assert(keys.contains(keys[x - 2]));
        }
    }
    if exists|i: int| 0 <= i < codes.len() && #[trigger] codes[i] != 0 {
        let i = choose|i: int| 0 <= i < codes.len() && #[trigger] codes[i] != 0;
        if modifier(codes[i]) {
            assert(bytes[0] != 0);
        } else {
            assert(keys.contains(codes[i]));
            assert(keys.contains(keys[0]));
            assert(bytes[2] == keys[0]);
        }
    }
}

} // verus!
