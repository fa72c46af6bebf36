//! Cutting a line of bytes into fields.

use vstd::prelude::*;

verus! {

/// The fields of `s`: the stretches of bytes between occurrences of
/// `delimiter`. Read from the left, a delimiter closes the field before it and
/// opens a new, empty one; any other byte joins the field that is open. A line
/// without a delimiter, the empty line too, is one field.
pub open spec fn split(s: Seq<u8>, delimiter: u8) -> Seq<Seq<u8>>
    decreases s.len(),
{
    if s.len() == 0 {
        seq![Seq::<u8>::empty()]
    } else {
        let before = split(s.drop_last(), delimiter);
        if s.last() == delimiter {
            before.push(Seq::<u8>::empty())
        } else {
            before.drop_last().push(before.last().push(s.last()))
        }
    }
}

/// The line that `fields` make with `delimiter` between each two of them.
pub open spec fn join(fields: Seq<Seq<u8>>, delimiter: u8) -> Seq<u8>
    decreases fields.len(),
{
    if fields.len() == 0 {
        Seq::<u8>::empty()
    } else if fields.len() == 1 {
        fields[0]
    } else {
        join(fields.drop_last(), delimiter).push(delimiter) + fields.last()
    }
}

/// Whether `byte` occurs nowhere in `s`.
pub open spec fn free_of(s: Seq<u8>, byte: u8) -> bool {
    forall|i: int| 0 <= i < s.len() ==> #[trigger] s[i] != byte
}

/// A line has at least one field.
pub proof fn lemma_split_has_a_field(s: Seq<u8>, delimiter: u8)
    ensures
        split(s, delimiter).len() >= 1,
    decreases s.len(),
{
    if s.len() > 0 {
        lemma_split_has_a_field(s.drop_last(), delimiter);
    }
}

/// Bytes other than the delimiter, written behind a line, lengthen its last
/// field and leave the others as they are.
pub proof fn lemma_split_append(s: Seq<u8>, tail: Seq<u8>, delimiter: u8)
    requires
        free_of(tail, delimiter),
    ensures
        split(s + tail, delimiter) == split(s, delimiter).drop_last().push(
            split(s, delimiter).last() + tail,
        ),
    decreases tail.len(),
{
    let fields = split(s, delimiter);
    lemma_split_has_a_field(s, delimiter);
    if tail.len() == 0 {
        assert(s + tail =~= s);
        assert(fields.last() + tail =~= fields.last());
        assert(fields.drop_last().push(fields.last()) =~= fields);
    } else {
        let shorter = tail.drop_last();
        assert(free_of(shorter, delimiter)) by {
            assert forall|i: int| 0 <= i < shorter.len() implies #[trigger] shorter[i]
                != delimiter by {
                assert(shorter[i] == tail[i]);
            }
        }
        lemma_split_append(s, shorter, delimiter);
        let whole = s + tail;
        assert(whole.drop_last() =~= s + shorter);
        assert(whole.last() == tail.last());
        assert(tail.last() != delimiter);
        let before = split(s + shorter, delimiter);
        assert(before.drop_last() =~= fields.drop_last());
        assert(before.last().push(tail.last()) =~= fields.last() + tail);
    }
}

/// Splitting what was joined gives the fields back, provided that there is at
/// least one field and that the delimiter occurs in none of them.
pub proof fn lemma_split_of_join(fields: Seq<Seq<u8>>, delimiter: u8)
    requires
        fields.len() >= 1,
        forall|k: int| 0 <= k < fields.len() ==> free_of(#[trigger] fields[k], delimiter),
    ensures
        split(join(fields, delimiter), delimiter) == fields,
    decreases fields.len(),
{
    let empty = Seq::<u8>::empty();
    if fields.len() == 1 {
        lemma_split_append(empty, fields[0], delimiter);
        assert(empty + fields[0] =~= fields[0]);
        assert(split(empty, delimiter) =~= seq![empty]);
        assert(seq![empty].drop_last().push(empty + fields[0]) =~= fields);
    } else {
        let rest = fields.drop_last();
        assert forall|k: int| 0 <= k < rest.len() implies free_of(#[trigger] rest[k], delimiter) by {
            assert(rest[k] == fields[k]);
        }
        lemma_split_of_join(rest, delimiter);
        let opened = join(rest, delimiter).push(delimiter);
        assert(opened.drop_last() =~= join(rest, delimiter));
        assert(split(opened, delimiter) == rest.push(empty));
        lemma_split_append(opened, fields.last(), delimiter);
        assert(empty + fields.last() =~= fields.last());
        assert(rest.push(empty).drop_last().push(empty + fields.last()) =~= fields);
    }
}

/// Joining the fields of a line gives the line back.
pub proof fn lemma_join_of_split(s: Seq<u8>, delimiter: u8)
    ensures
        join(split(s, delimiter), delimiter) == s,
    decreases s.len(),
{
    if s.len() == 0 {
        assert(join(split(s, delimiter), delimiter) =~= s);
    } else {
        let before = split(s.drop_last(), delimiter);
        lemma_split_has_a_field(s.drop_last(), delimiter);
        lemma_join_of_split(s.drop_last(), delimiter);
        let fields = split(s, delimiter);
        if s.last() == delimiter {
            assert(fields.drop_last() =~= before);
            assert(join(fields, delimiter) =~= s.drop_last().push(delimiter));
        } else if before.len() == 1 {
            assert(fields =~= seq![before[0].push(s.last())]);
            assert(join(fields, delimiter) =~= s.drop_last().push(s.last()));
        } else {
            assert(fields.drop_last() =~= before.drop_last());
            assert(join(fields, delimiter) =~= join(before, delimiter).push(s.last()));
        }
        assert(s.drop_last().push(s.last()) =~= s);
    }
}

/// The delimiter occurs in no field.
pub proof fn lemma_fields_free_of_delimiter(s: Seq<u8>, delimiter: u8)
    ensures
        forall|k: int|
            0 <= k < split(s, delimiter).len() ==> free_of(
                #[trigger] split(s, delimiter)[k],
                delimiter,
            ),
    decreases s.len(),
{
    let fields = split(s, delimiter);
    if s.len() > 0 {
        let before = split(s.drop_last(), delimiter);
        lemma_split_has_a_field(s.drop_last(), delimiter);
        lemma_fields_free_of_delimiter(s.drop_last(), delimiter);
        assert forall|k: int| 0 <= k < fields.len() implies free_of(
            #[trigger] fields[k],
            delimiter,
        ) by {
            if k < before.len() - 1 {
                assert(fields[k] == before[k]);
            } else if s.last() != delimiter {
                assert(free_of(before[k], delimiter));
                assert forall|i: int| 0 <= i < fields[k].len() implies #[trigger] fields[k][i]
                    != delimiter by {
                    if i < before[k].len() {
                        assert(fields[k][i] == before[k][i]);
                    }
                }
            } else if k < before.len() {
                assert(fields[k] == before[k]);
            }
        }
    }
}

/// A line in which the delimiter does not occur is one field: itself.
pub proof fn lemma_split_without_delimiter(s: Seq<u8>, delimiter: u8)
    requires
        free_of(s, delimiter),
    ensures
        split(s, delimiter) == seq![s],
{
    lemma_split_of_join(seq![s], delimiter);
}

/// A byte that occurs nowhere in a line occurs in none of its fields.
pub proof fn lemma_fields_free_of_absent_byte(s: Seq<u8>, delimiter: u8, byte: u8)
    requires
        free_of(s, byte),
    ensures
        forall|k: int|
            0 <= k < split(s, delimiter).len() ==> free_of(
                #[trigger] split(s, delimiter)[k],
                byte,
            ),
    decreases s.len(),
{
    let fields = split(s, delimiter);
    if s.len() > 0 {
        let shorter = s.drop_last();
        let before = split(shorter, delimiter);
        assert(free_of(shorter, byte)) by {
            assert forall|i: int| 0 <= i < shorter.len() implies #[trigger] shorter[i] != byte by {
                assert(shorter[i] == s[i]);
            }
        }
        lemma_split_has_a_field(shorter, delimiter);
        lemma_fields_free_of_absent_byte(shorter, delimiter, byte);
        assert forall|k: int| 0 <= k < fields.len() implies free_of(#[trigger] fields[k], byte) by {
            if k < before.len() - 1 {
                assert(fields[k] == before[k]);
            } else if s.last() != delimiter {
                assert(free_of(before[k], byte));
                assert forall|i: int| 0 <= i < fields[k].len() implies #[trigger] fields[k][i]
                    != byte by {
                    if i < before[k].len() {
                        assert(fields[k][i] == before[k][i]);
                    }
                }
            } else if k < before.len() {
                assert(fields[k] == before[k]);
            }
        }
    }
}

/// What a list of byte vectors holds.
pub open spec fn views(fields: Seq<Vec<u8>>) -> Seq<Seq<u8>> {
    Seq::new(fields.len(), |k: int| fields[k]@)
}

/// The fields of `raw`, each copied out.
pub fn split_fields(raw: &[u8], delimiter: u8) -> (fields: Vec<Vec<u8>>)
    ensures
        views(fields@) == split(raw@, delimiter),
{
    let mut closed: Vec<Vec<u8>> = Vec::new();
    let mut open: Vec<u8> = Vec::new();
    let mut i: usize = 0;
    assert(raw@.subrange(0, 0) =~= Seq::<u8>::empty());
    assert(views(closed@).push(open@) =~= seq![Seq::<u8>::empty()]);
    while i < raw.len()
        invariant
            i <= raw.len(),
            views(closed@).push(open@) == split(raw@.subrange(0, i as int), delimiter),
        decreases raw.len() - i,
    {
        let byte = raw[i];
        let ghost shorter = raw@.subrange(0, i as int);
        let ghost longer = raw@.subrange(0, i + 1);
        let ghost closed_before = views(closed@);
        let ghost open_before = open@;
        assert(longer.drop_last() =~= shorter);
        assert(longer.last() == byte);
        assert(closed_before.push(open_before).drop_last() =~= closed_before);
        if byte == delimiter {
            closed.push(open);
            open = Vec::new();
            assert(views(closed@) =~= closed_before.push(open_before));
        } else {
            open.push(byte);
        }
        i += 1;
    }
    assert(raw@.subrange(0, i as int) =~= raw@);
    let ghost closed_before = views(closed@);
    closed.push(open);
    assert(views(closed@) =~= closed_before.push(open@));
    closed
}

/// `s` without the occurrences of `byte` that it begins with.
pub open spec fn strip_leading(s: Seq<u8>, byte: u8) -> Seq<u8>
    decreases s.len(),
{
    if s.len() > 0 && s[0] == byte {
        strip_leading(s.drop_first(), byte)
    } else {
        s
    }
}

/// `s` without the occurrences of `byte` that it ends with.
pub open spec fn strip_trailing(s: Seq<u8>, byte: u8) -> Seq<u8>
    decreases s.len(),
{
    if s.len() > 0 && s.last() == byte {
        strip_trailing(s.drop_last(), byte)
    } else {
        s
    }
}

/// `s` without the occurrences of `byte` that surround it on either side.
pub open spec fn strip_surrounding(s: Seq<u8>, byte: u8) -> Seq<u8> {
    strip_trailing(strip_leading(s, byte), byte)
}

/// Stripping changes nothing where `byte` stands at neither end.
pub proof fn lemma_strip_nothing(s: Seq<u8>, byte: u8)
    requires
        s.len() > 0 ==> s[0] != byte && s.last() != byte,
    ensures
        strip_surrounding(s, byte) == s,
{
}

/// The part of `field` that is left when the occurrences of `byte` at its
/// beginning and at its end are taken away.
pub fn trim_matches<'a>(field: &'a [u8], byte: u8) -> (trimmed: &'a [u8])
    ensures
        trimmed@ == strip_surrounding(field@, byte),
{
    let n = field.len();
    let mut lo: usize = 0;
    assert(field@.subrange(0, n as int) =~= field@);
    while lo < n && field[lo] == byte
        invariant
            lo <= n,
            n == field@.len(),
            strip_leading(field@, byte) == strip_leading(field@.subrange(lo as int, n as int), byte),
        decreases n - lo,
    {
        assert(field@.subrange(lo as int, n as int).drop_first() =~= field@.subrange(
            lo + 1,
            n as int,
        ));
        lo += 1;
    }
    let ghost front = field@.subrange(lo as int, n as int);
    assert(strip_leading(field@, byte) == front);
    let mut hi: usize = n;
    assert(field@.subrange(lo as int, n as int) =~= front);
    while hi > lo && field[hi - 1] == byte
        invariant
            lo <= hi <= n,
            n == field@.len(),
            strip_trailing(front, byte) == strip_trailing(
                field@.subrange(lo as int, hi as int),
                byte,
            ),
        decreases hi - lo,
    {
        assert(field@.subrange(lo as int, hi as int).drop_last() =~= field@.subrange(
            lo as int,
            hi - 1,
        ));
        hi -= 1;
    }
    vstd::slice::slice_subrange(field, lo, hi)
}

/// Whether `byte` is ASCII white space: a blank, a tab, a line feed, a
/// vertical tab, a form feed or a carriage return.
pub open spec fn is_whitespace(byte: u8) -> bool {
    byte == 0x20 || 0x09 <= byte <= 0x0d
}

/// Whether `s` holds nothing but white space. The empty line is blank.
pub open spec fn blank(s: Seq<u8>) -> bool {
    forall|i: int| 0 <= i < s.len() ==> is_whitespace(#[trigger] s[i])
}

/// Whether `raw` is empty or holds nothing but white space.
pub fn is_blank(raw: &[u8]) -> (b: bool)
    ensures
        b == blank(raw@),
{
    let mut i: usize = 0;
    while i < raw.len()
        invariant
            i <= raw.len(),
            blank(raw@.subrange(0, i as int)),
        decreases raw.len() - i,
    {
        let byte = raw[i];
        if !(byte == 0x20 || (0x09 <= byte && byte <= 0x0d)) {
            assert(!is_whitespace(raw@[i as int]));
            return false;
        }
        assert forall|j: int| 0 <= j < i + 1 implies is_whitespace(
            #[trigger] raw@.subrange(0, i + 1)[j],
        ) by {
            if j < i {
                assert(raw@.subrange(0, i + 1)[j] == raw@.subrange(0, i as int)[j]);
            }
        }
        i += 1;
    }
    assert(raw@.subrange(0, i as int) =~= raw@);
    true
}

} // verus!
