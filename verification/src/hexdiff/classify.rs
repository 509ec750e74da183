//! Classification of a byte position across all buffers.

use vstd::prelude::*;

verus! {

/// How far the buffers agree on one byte position.
#[derive(Debug, Clone, Copy, PartialEq, Eq, Structural)]
pub enum ByteClass {
    /// All buffers hold the same value at this position.
    Green,
    /// Some buffers agree and others differ.
    Blue,
    /// Every buffer holds a value of its own.
    Red,
}

/// The number of distinct values in `values`; an absent byte is a value like
/// any other.
pub open spec fn distinct_count(values: Seq<Option<u8>>) -> nat {
    values.to_set().len()
}

/// The class of a position at which the buffers hold `values`, one per buffer.
pub open spec fn classify(values: Seq<Option<u8>>) -> ByteClass {
    if distinct_count(values) <= 1 {
        ByteClass::Green
    } else if distinct_count(values) == values.len() {
        ByteClass::Red
    } else {
        ByteClass::Blue
    }
}

/// The value a buffer holds at `pos`: the byte there, or nothing where `pos`
/// lies beyond the buffer's end.
pub open spec fn byte_at(data: Seq<u8>, pos: int) -> Option<u8> {
    if 0 <= pos < data.len() {
        Some(data[pos])
    } else {
        None
    }
}

/// The values that the buffers hold at `pos`, in the buffers' order.
pub open spec fn column(files: Seq<Seq<u8>>, pos: int) -> Seq<Option<u8>> {
    Seq::new(files.len(), |f: int| byte_at(files[f], pos))
}

/// The class of position `pos` across `files`.
pub open spec fn class_at(files: Seq<Seq<u8>>, pos: int) -> ByteClass {
    classify(column(files, pos))
}

/// The classes of the `block` positions that start at `offset`.
pub open spec fn block_classes(files: Seq<Seq<u8>>, offset: int, block: nat) -> Seq<ByteClass> {
    Seq::new(block, |i: int| class_at(files, offset + i))
}

/// The bytes of each of the borrowed buffers.
pub open spec fn contents(files: Seq<&[u8]>) -> Seq<Seq<u8>> {
    Seq::new(files.len(), |f: int| files[f]@)
}

/// Which classes occur in a line: full mismatch, full match, partial match,
/// in this order.
pub open spec fn line_flags(classes: Seq<ByteClass>) -> (bool, bool, bool) {
    (
        classes.contains(ByteClass::Red),
        classes.contains(ByteClass::Green),
        classes.contains(ByteClass::Blue),
    )
}

/// Whether all the values are one and the same.
pub open spec fn all_equal(values: Seq<Option<u8>>) -> bool {
    forall|i: int, j: int| 0 <= i < values.len() && 0 <= j < values.len() ==> values[i] == values[j]
}

/// Whether `needle` occurs in `seen`.
fn contains_value(seen: &Vec<Option<u8>>, needle: Option<u8>) -> (found: bool)
    ensures
        found == seen@.contains(needle),
{
    let mut i: usize = 0;
    while i < seen.len()
        invariant
            i <= seen.len(),
            forall|j: int| 0 <= j < i ==> seen@[j] != needle,
        decreases seen.len() - i,
    {
        if seen[i] == needle {
            return true;
        }
        i += 1;
    }
    false
}

/// Classifies one byte position from the values the buffers hold there.
pub fn classify_position(values: &[Option<u8>]) -> (class: ByteClass)
    ensures
        class == classify(values@),
{
    let mut unique: Vec<Option<u8>> = Vec::new();
    let mut i: usize = 0;
    while i < values.len()
        invariant
            i <= values.len(),
            unique@.no_duplicates(),
            unique@.to_set() =~= values@.take(i as int).to_set(),
        decreases values.len() - i,
    {
        let v = values[i];
        let known = contains_value(&unique, v);
        proof {
            assert(values@.take(i as int + 1) =~= values@.take(i as int).push(v));
            values@.take(i as int).lemma_push_to_set_commute(v);
        }
        if !known {
            proof {
                unique@.lemma_push_to_set_commute(v);
            }
            unique.push(v);
        }
        i += 1;
    }
    proof {
        assert(values@.take(values.len() as int) =~= values@);
        unique@.unique_seq_to_set();
    }
    if unique.len() <= 1 {
        ByteClass::Green
    } else if unique.len() == values.len() {
        ByteClass::Red
    } else {
        ByteClass::Blue
    }
}

/// The value that `data` holds `i` positions after `offset`.
pub(crate) fn value_at(data: &[u8], offset: usize, i: usize) -> (value: Option<u8>)
    ensures
        value == byte_at(data@, offset + i),
{
    let len = data.len();
    match offset.checked_add(i) {
        Some(pos) => if pos < len {
            Some(data[pos])
        } else {
            None
        },
        None => None,
    }
}

/// Classifies the `block` positions that start at `offset`. A buffer that
/// ends before a position takes part in it with an absent value.
pub fn classify_block(files: &[&[u8]], offset: usize, block: usize) -> (classes: Vec<ByteClass>)
    ensures
        classes@ == block_classes(contents(files@), offset as int, block as nat),
{
    let mut classes: Vec<ByteClass> = Vec::new();
    let mut i: usize = 0;
    while i < block
        invariant
            i <= block,
            classes@ == block_classes(contents(files@), offset as int, i as nat),
        decreases block - i,
    {
        let mut values: Vec<Option<u8>> = Vec::new();
        let mut f: usize = 0;
        while f < files.len()
            invariant
                f <= files.len(),
                values@.len() == f,
                forall|g: int| 0 <= g < f ==> values@[g] == byte_at(files@[g]@, offset + i),
            decreases files.len() - f,
        {
            values.push(value_at(files[f], offset, i));
            f += 1;
        }
        assert(values@ =~= column(contents(files@), offset + i));
        classes.push(classify_position(values.as_slice()));
        i += 1;
    }
    classes
}

/// Says which classes occur in a classified line, as `(has_red, has_green,
/// has_blue)`.
pub fn flags_for_classes(classes: &[ByteClass]) -> (flags: (bool, bool, bool))
    ensures
        flags == line_flags(classes@),
{
    let mut has_red = false;
    let mut has_green = false;
    let mut has_blue = false;
    let mut i: usize = 0;
    while i < classes.len()
        invariant
            i <= classes.len(),
            (has_red, has_green, has_blue) == line_flags(classes@.take(i as int)),
        decreases classes.len() - i,
    {
        proof {
            let seen = classes@.take(i as int);
            let class = classes@[i as int];
            assert(classes@.take(i as int + 1) =~= seen.push(class));
            vstd::seq_lib::lemma_seq_contains_after_push(seen, class, ByteClass::Red);
            vstd::seq_lib::lemma_seq_contains_after_push(seen, class, ByteClass::Green);
            vstd::seq_lib::lemma_seq_contains_after_push(seen, class, ByteClass::Blue);
        }
        match classes[i] {
            ByteClass::Red => has_red = true,
            ByteClass::Green => has_green = true,
            ByteClass::Blue => has_blue = true,
        }
        i += 1;
    }
    assert(classes@.take(classes.len() as int) =~= classes@);
    (has_red, has_green, has_blue)
}

/// A finite set that holds two different elements has at least two elements.
proof fn lemma_two_members<A>(s: Set<A>, a: A, b: A)
    requires
        s.finite(),
        s.contains(a),
        s.contains(b),
        a != b,
    ensures
        s.len() >= 2,
{
    assert(s.remove(a).contains(b));
    assert(s.remove(a).len() >= 1) by {
        if s.remove(a).len() == 0 {
            s.remove(a).lemma_len0_is_empty();
        }
    }
}

/// A position is a full match exactly where all the buffers hold the same
/// value, absent or not; a full mismatch exactly where at least two buffers
/// are compared and no two of them agree; and a partial match in every other
/// case.
pub proof fn lemma_classify_cases(values: Seq<Option<u8>>)
    ensures
        classify(values) == ByteClass::Green <==> all_equal(values),
        classify(values) == ByteClass::Red <==> values.len() >= 2 && values.no_duplicates(),
        classify(values) == ByteClass::Blue <==> !all_equal(values) && !(values.len() >= 2
            && values.no_duplicates()),
{
    broadcast use vstd::seq_lib::seq_to_set_is_finite;

    let set = values.to_set();
    values.lemma_cardinality_of_set();
    if all_equal(values) {
        if values.len() == 0 {
            values.lemma_cardinality_of_empty_set_is_0();
        } else {
            assert(set =~= set![values[0]]);
        }
    } else {
        let (i, j) = choose|i: int, j: int|
            0 <= i < values.len() && 0 <= j < values.len() && values[i] != values[j];
        lemma_two_members(set, values[i], values[j]);
    }
    if values.no_duplicates() {
        values.unique_seq_to_set();
    }
    if set.len() == values.len() {
        values.lemma_no_dup_set_cardinality();
    }
}

/// With a single buffer there is nothing to disagree with: its one value is a
/// full match, wherever the position lies.
pub proof fn lemma_single_buffer_matches(files: Seq<Seq<u8>>, pos: int)
    requires
        files.len() == 1,
    ensures
        class_at(files, pos) == ByteClass::Green,
{
    lemma_classify_cases(column(files, pos));
}

/// Of two buffers of different lengths, the positions that only the longer
/// one reaches are full mismatches: the absent value of the shorter buffer
/// differs from every byte.
pub proof fn lemma_tail_mismatches(shorter: Seq<u8>, longer: Seq<u8>, pos: int)
    requires
        shorter.len() <= pos < longer.len(),
    ensures
        class_at(seq![shorter, longer], pos) == ByteClass::Red,
        class_at(seq![longer, shorter], pos) == ByteClass::Red,
{
    lemma_classify_cases(column(seq![shorter, longer], pos));
    lemma_classify_cases(column(seq![longer, shorter], pos));
}

} // verus!
