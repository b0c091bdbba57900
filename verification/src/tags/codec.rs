//! The bitmask codec: between a bitmask and the names of the tags whose
//! bits it holds, by the entries of one registry.

use crate::bitmask::{bytes_bits, negative_bytes, shortest_bytes, word_bits, Bitmask};
use crate::payload::ColumnValue;
use crate::tags::registry::{
    ascending, lemma_position, lemma_position_unique, lookup, position, EntryView, Registry,
};
use crate::text::name_views;
use vstd::prelude::*;

verus! {

/// The entry is in use and shares a bit with `mask`.
pub open spec fn is_active(mask: Set<nat>, entry: EntryView) -> bool {
    !entry.flag.deprecated && !mask.disjoint(entry.flag.bits)
}

/// The names that `mask` decodes to: those of the entries in use that share
/// a bit with it, in the order of the registry.
pub open spec fn decoded_names(mask: Set<nat>, reg: Seq<EntryView>) -> Seq<Seq<char>> {
    reg.filter(|e: EntryView| is_active(mask, e)).map_values(|e: EntryView| e.name)
}

/// `name` gives bit `b` to a mask: the registry holds it, its entry is in
/// use, and the entry's bits include `b`.
pub open spec fn contributes(reg: Seq<EntryView>, name: Seq<char>, b: nat) -> bool {
    match lookup(reg, name) {
        Some(flag) => !flag.deprecated && flag.bits.contains(b),
        None => false,
    }
}

/// The bits that `names` encode to: those of the entries in use that
/// `names` name. A name that the registry does not hold, or whose entry is
/// deprecated, gives none.
pub open spec fn encoded_bits(names: Seq<Seq<char>>, reg: Seq<EntryView>) -> Set<nat> {
    Set::new(|b: nat| exists|i: int| 0 <= i < names.len() && contributes(reg, names[i], b))
}

/// The mask that a storage column holds: the bits of a whole number that
/// is not below zero, and nothing for a number below zero or a column of
/// another type.
pub open spec fn column_mask(value: ColumnValue) -> Option<Set<nat>> {
    match value {
        ColumnValue::Varint(bytes) => if negative_bytes(bytes@) {
            None
        } else {
            Some(bytes_bits(bytes@))
        },
        ColumnValue::BigInt(n) => if n < 0 {
            None
        } else {
            Some(word_bits(n as u64))
        },
        ColumnValue::Int(n) => if n < 0 {
            None
        } else {
            Some(word_bits(n as u64))
        },
        _ => None,
    }
}

/// The mask that a storage column holds.
pub fn mask_of_column(value: &ColumnValue) -> (mask: Option<Bitmask>)
    ensures
        match mask {
            Some(m) => column_mask(*value) == Some(m@),
            None => column_mask(*value) is None,
        },
{
    match value {
        ColumnValue::Varint(bytes) => Bitmask::from_signed_bytes_be(bytes),
        ColumnValue::BigInt(n) => if *n < 0 {
            None
        } else {
            Some(Bitmask::from_u64(*n as u64))
        },
        ColumnValue::Int(n) => if *n < 0 {
            None
        } else {
            Some(Bitmask::from_u64(*n as u64))
        },
        _ => None,
    }
}

/// The storage column that holds the mask: a whole number of any size, in
/// the fewest bytes.
pub fn column_of_mask(mask: &Bitmask) -> (value: ColumnValue)
    ensures
        column_mask(value) == Some(mask@),
        value matches ColumnValue::Varint(bytes) && shortest_bytes(bytes@),
{
    ColumnValue::Varint(mask.to_signed_bytes_be())
}

/// Decodes a bitmask: the names of the entries in use that share a bit with
/// it, in the order of the registry. Bits that no entry in use has are
/// passed over, and a deprecated entry is never named.
pub fn decode(bitmask: &Bitmask, snapshot: &Registry) -> (names: Vec<String>)
    ensures
        name_views(names@) == decoded_names(bitmask@, snapshot@),
        name_views(names@).no_duplicates(),
        forall|j: int|
            0 <= j < names.len() ==> match lookup(snapshot@, #[trigger] name_views(names@)[j]) {
                Some(flag) => !flag.deprecated && !bitmask@.disjoint(flag.bits),
                None => false,
            },
        forall|i: int|
            0 <= i < snapshot@.len() && (#[trigger] snapshot@[i]).flag.deprecated ==> !name_views(
                names@,
            ).contains(snapshot@[i].name),
{
    let ghost mask = bitmask@;
    let ghost reg = snapshot@;
    let ghost keep = |e: EntryView| is_active(mask, e);
    let ghost name = |e: EntryView| e.name;
    let n: usize = snapshot.len();
    let mut names: Vec<String> = Vec::new();
    let mut i: usize = 0;
    proof {
        reveal(Seq::filter);
        assert(reg.take(0) =~= Seq::<EntryView>::empty());
        assert(reg.take(0).filter(keep) =~= Seq::<EntryView>::empty());
        assert(name_views(names@) =~= reg.take(0).filter(keep).map_values(name));
    }
    while i < n
        invariant
            i <= n,
            n == reg.len(),
            mask == bitmask@,
            reg == snapshot@,
            keep == (|e: EntryView| is_active(mask, e)),
            name == (|e: EntryView| e.name),
            name_views(names@) == reg.take(i as int).filter(keep).map_values(name),
        decreases n - i,
    {
        let ghost before = reg.take(i as int);
        let ghost found = name_views(names@);
        proof {
            assert(reg.take(i + 1) =~= before.push(reg[i as int]));
            before.lemma_filter_push(reg[i as int], keep);
        }
        let flag = snapshot.flag_at(i);
        if !flag.deprecated && bitmask.intersects(&flag.bit_weight) {
            names.push(snapshot.name_at(i).clone());
            proof {
                assert(name_views(names@) =~= found.push(reg[i as int].name));
                assert(before.filter(keep).push(reg[i as int]).map_values(name)
                    =~= before.filter(keep).map_values(name).push(reg[i as int].name));
            }
        }
        i += 1;
    }
    proof {
        assert(reg.take(i as int) =~= reg);
        lemma_decoded_names(mask, reg);
    }
    names
}

/// Of an ascending registry, `decoded_names` names each entry in use that
/// shares a bit with `mask` once, and nothing else.
pub proof fn lemma_decoded_names(mask: Set<nat>, reg: Seq<EntryView>)
    requires
        ascending(reg),
    ensures
        decoded_names(mask, reg).no_duplicates(),
        forall|j: int|
            0 <= j < decoded_names(mask, reg).len() ==> match lookup(
                reg,
                #[trigger] decoded_names(mask, reg)[j],
            ) {
                Some(flag) => !flag.deprecated && !mask.disjoint(flag.bits),
                None => false,
            },
        forall|i: int|
            0 <= i < reg.len() ==> (is_active(mask, #[trigger] reg[i]) <==> decoded_names(
                mask,
                reg,
            ).contains(reg[i].name)),
    decreases reg.len(),
{
    let keep = |e: EntryView| is_active(mask, e);
    let name = |e: EntryView| e.name;
    reveal(Seq::filter);
    if reg.len() == 0 {
        assert(reg.filter(keep) =~= Seq::<EntryView>::empty());
    } else {
        let front = reg.drop_last();
        let last = reg.last();
        let n = reg.len() - 1;
        assert(ascending(front)) by {
            assert forall|i: int, j: int| 0 <= i < j < front.len() implies crate::text::name_lt(
                front[i].name,
                front[j].name,
            ) by {
                assert(front[i] == reg[i] && front[j] == reg[j]);
            }
        }
        lemma_decoded_names(mask, front);
        let short = decoded_names(mask, front);
        let full = decoded_names(mask, reg);
        // No name of the front is the last name.
        assert forall|j: int| 0 <= j < short.len() implies short[j] != last.name by {
            lemma_position(front, short[j]);
            let k = position(front, short[j]).unwrap();
            assert(front[k] == reg[k]);
            crate::text::lemma_name_lt_asymmetric(reg[k].name, reg[n].name);
        }
        // What the front holds under a name, the whole holds under it.
        assert forall|j: int| 0 <= j < short.len() implies lookup(reg, short[j]) == lookup(
            front,
            short[j],
        ) by {
            lemma_position(front, short[j]);
            let k = position(front, short[j]).unwrap();
            assert(front[k] == reg[k]);
            lemma_position_unique(reg, short[j], k);
        }
        if is_active(mask, last) {
            assert(full =~= short.push(last.name));
            lemma_position_unique(reg, last.name, n);
            assert(full[short.len() as int] == last.name);
            assert forall|i: int| 0 <= i < reg.len() implies (is_active(mask, #[trigger] reg[i])
                <==> full.contains(reg[i].name)) by {
                if i < n {
                    assert(front[i] == reg[i]);
                    if short.contains(reg[i].name) {
                        let j = choose|j: int| 0 <= j < short.len() && short[j] == reg[i].name;
                        assert(full[j] == reg[i].name);
                    }
                    if full.contains(reg[i].name) {
                        let j = choose|j: int| 0 <= j < full.len() && full[j] == reg[i].name;
                        if j == short.len() {
                            crate::text::lemma_name_lt_asymmetric(reg[i].name, reg[n].name);
                        } else {
                            assert(short[j] == reg[i].name);
                        }
                    }
                } else {
                    assert(full[short.len() as int] == reg[i].name);
                }
            }
        } else {
            assert(full =~= short);
            assert forall|i: int| 0 <= i < reg.len() implies (is_active(mask, #[trigger] reg[i])
                <==> full.contains(reg[i].name)) by {
                if i < n {
                    assert(front[i] == reg[i]);
                } else {
                    if full.contains(reg[i].name) {
                        let j = choose|j: int| 0 <= j < full.len() && full[j] == reg[i].name;
                        assert(short[j] != last.name);
                    }
                }
            }
        }
    }
}

/// Encodes names: the bits of the entries in use that `names` name. A name
/// that the registry does not hold, or whose entry is deprecated, is passed
/// over without an error.
pub fn encode(names: &Vec<String>, snapshot: &Registry) -> (mask: Bitmask)
    ensures
        mask@ == encoded_bits(name_views(names@), snapshot@),
{
    let ghost given = name_views(names@);
    let ghost reg = snapshot@;
    let mut mask = Bitmask::zero();
    let mut i: usize = 0;
    proof {
        assert(mask@ =~= encoded_bits(given.take(0), reg));
    }
    while i < names.len()
        invariant
            i <= names.len(),
            given == name_views(names@),
            reg == snapshot@,
            mask@ == encoded_bits(given.take(i as int), reg),
        decreases names.len() - i,
    {
        let ghost before = given.take(i as int);
        let ghost after = given.take(i + 1);
        let ghost this = given[i as int];
        proof {
            assert(this == names@[i as int]@);
            assert(after =~= before.push(this));
            assert forall|b: nat|
                encoded_bits(after, reg).contains(b) <==> (encoded_bits(before, reg).contains(b)
                    || contributes(reg, this, b)) by {
                if encoded_bits(after, reg).contains(b) {
                    let j = choose|j: int| 0 <= j < after.len() && contributes(reg, after[j], b);
                    if j < i {
                        assert(before[j] == after[j]);
                    }
                }
                if encoded_bits(before, reg).contains(b) {
                    let j = choose|j: int| 0 <= j < before.len() && contributes(reg, before[j], b);
                    assert(before[j] == after[j]);
                }
                if contributes(reg, this, b) {
                    assert(after[i as int] == this);
                }
            }
        }
        match snapshot.get(names[i].as_str()) {
            Some(flag) => {
                if !flag.deprecated {
                    let ghost so_far = mask@;
                    mask = mask.union(&flag.bit_weight);
                    proof {
                        assert forall|b: nat| mask@.contains(b) <==> encoded_bits(
                            after,
                            reg,
                        ).contains(b) by {
                            assert(mask@.contains(b) <==> so_far.contains(b)
                                || flag@.bits.contains(b));
                            assert(contributes(reg, this, b) <==> flag@.bits.contains(b));
                        }
                    }
                }
            },
            None => {},
        }
        proof {
            assert(mask@ =~= encoded_bits(after, reg));
        }
        i += 1;
    }
    proof {
        assert(given.take(i as int) =~= given);
    }
    mask
}

/// A deprecated entry is never decoded, whatever bits the mask holds.
pub proof fn lemma_deprecated_never_decoded(mask: Set<nat>, reg: Seq<EntryView>, i: int)
    requires
        ascending(reg),
        0 <= i < reg.len(),
        reg[i].flag.deprecated,
    ensures
        !decoded_names(mask, reg).contains(reg[i].name),
{
    lemma_decoded_names(mask, reg);
    assert(!is_active(mask, reg[i]));
}

/// Encoding goes by which names are given, not by how often or in what
/// order: a name given twice gives its bits once.
pub proof fn lemma_encode_ignores_repeats(
    first: Seq<Seq<char>>,
    second: Seq<Seq<char>>,
    reg: Seq<EntryView>,
)
    requires
        first.to_set() == second.to_set(),
    ensures
        encoded_bits(first, reg) == encoded_bits(second, reg),
{
    assert forall|b: nat| encoded_bits(first, reg).contains(b) <==> encoded_bits(
        second,
        reg,
    ).contains(b) by {
        if encoded_bits(first, reg).contains(b) {
            let i = choose|i: int| 0 <= i < first.len() && contributes(reg, first[i], b);
            assert(first.to_set().contains(first[i]));
            assert(second.contains(first[i]));
            let j = choose|j: int| 0 <= j < second.len() && second[j] == first[i];
            assert(contributes(reg, second[j], b));
        }
        if encoded_bits(second, reg).contains(b) {
            let i = choose|i: int| 0 <= i < second.len() && contributes(reg, second[i], b);
            assert(second.to_set().contains(second[i]));
            assert(first.contains(second[i]));
            let j = choose|j: int| 0 <= j < first.len() && first[j] == second[i];
            assert(contributes(reg, first[j], b));
        }
    }
    assert(encoded_bits(first, reg) =~= encoded_bits(second, reg));
}

/// No two entries in use share a bit.
pub open spec fn disjoint_weights(reg: Seq<EntryView>) -> bool {
    forall|i: int, j: int|
        #![trigger reg[i], reg[j]]
        0 <= i < j < reg.len() && !reg[i].flag.deprecated && !reg[j].flag.deprecated
            ==> reg[i].flag.bits.disjoint(reg[j].flag.bits)
}

/// Every entry in use has at most one bit.
pub open spec fn single_bit_weights(reg: Seq<EntryView>) -> bool {
    forall|i: int, b: nat, c: nat|
        #![trigger reg[i].flag.bits.contains(b), reg[i].flag.bits.contains(c)]
        0 <= i < reg.len() && !reg[i].flag.deprecated && reg[i].flag.bits.contains(b)
            && reg[i].flag.bits.contains(c) ==> b == c
}

/// The bits that the entries in use have between them.
pub open spec fn owned_bits(reg: Seq<EntryView>) -> Set<nat> {
    Set::new(
        |b: nat|
            exists|i: int|
                0 <= i < reg.len() && !(#[trigger] reg[i]).flag.deprecated
                    && reg[i].flag.bits.contains(b),
    )
}

/// Where no two entries in use share a bit, a mask that names encode to
/// comes back from decoding and encoding again as it was.
pub proof fn lemma_encode_decode_round_trip(names: Seq<Seq<char>>, reg: Seq<EntryView>)
    requires
        ascending(reg),
        disjoint_weights(reg),
    ensures
        encoded_bits(decoded_names(encoded_bits(names, reg), reg), reg) == encoded_bits(
            names,
            reg,
        ),
{
    let mask = encoded_bits(names, reg);
    let decoded = decoded_names(mask, reg);
    lemma_decoded_names(mask, reg);
    assert forall|b: nat| encoded_bits(decoded, reg).contains(b) <==> mask.contains(b) by {
        if encoded_bits(decoded, reg).contains(b) {
            let j = choose|j: int| 0 <= j < decoded.len() && contributes(reg, decoded[j], b);
            lemma_position(reg, decoded[j]);
            let k = position(reg, decoded[j]).unwrap();
            let c = choose|c: nat| mask.contains(c) && reg[k].flag.bits.contains(c);
            let i = choose|i: int| 0 <= i < names.len() && contributes(reg, names[i], c);
            lemma_position(reg, names[i]);
            let m = position(reg, names[i]).unwrap();
            if k < m {
                assert(reg[k].flag.bits.disjoint(reg[m].flag.bits));
            } else if m < k {
                assert(reg[m].flag.bits.disjoint(reg[k].flag.bits));
            }
            assert(contributes(reg, names[i], b));
        }
        if mask.contains(b) {
            let i = choose|i: int| 0 <= i < names.len() && contributes(reg, names[i], b);
            lemma_position(reg, names[i]);
            let m = position(reg, names[i]).unwrap();
            assert(is_active(mask, reg[m]));
            let j = choose|j: int| 0 <= j < decoded.len() && decoded[j] == reg[m].name;
            assert(contributes(reg, decoded[j], b));
        }
    }
    assert(encoded_bits(decoded, reg) =~= mask);
}

/// Decoding a mask and encoding the names again keeps every bit of the
/// mask that an entry in use has, and yields no bit that none has. Where
/// every entry in use has a single bit, that is all: the mask comes back
/// cut down to the bits that the entries in use have.
pub proof fn lemma_decode_encode_normalizes(mask: Set<nat>, reg: Seq<EntryView>)
    requires
        ascending(reg),
    ensures
        mask.intersect(owned_bits(reg)).subset_of(
            encoded_bits(decoded_names(mask, reg), reg),
        ),
        encoded_bits(decoded_names(mask, reg), reg).subset_of(owned_bits(reg)),
        single_bit_weights(reg) ==> encoded_bits(decoded_names(mask, reg), reg)
            == mask.intersect(owned_bits(reg)),
{
    let decoded = decoded_names(mask, reg);
    let again = encoded_bits(decoded, reg);
    lemma_decoded_names(mask, reg);
    assert forall|b: nat| mask.contains(b) && owned_bits(reg).contains(b) implies again.contains(
        b,
    ) by {
        let i = choose|i: int|
            0 <= i < reg.len() && !(#[trigger] reg[i]).flag.deprecated
                && reg[i].flag.bits.contains(b);
        assert(is_active(mask, reg[i]));
        let j = choose|j: int| 0 <= j < decoded.len() && decoded[j] == reg[i].name;
        lemma_position_unique(reg, reg[i].name, i);
        assert(contributes(reg, decoded[j], b));
    }
    assert forall|b: nat| again.contains(b) implies owned_bits(reg).contains(b) && (
    single_bit_weights(reg) ==> mask.contains(b)) by {
        let j = choose|j: int| 0 <= j < decoded.len() && contributes(reg, decoded[j], b);
        lemma_position(reg, decoded[j]);
        let k = position(reg, decoded[j]).unwrap();
        assert(!reg[k].flag.deprecated && reg[k].flag.bits.contains(b));
        if single_bit_weights(reg) {
            let c = choose|c: nat| mask.contains(c) && reg[k].flag.bits.contains(c);
            assert(b == c);
        }
    }
    if single_bit_weights(reg) {
        assert(again =~= mask.intersect(owned_bits(reg)));
    }
}

} // verus!
