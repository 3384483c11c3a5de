//! What the reading of ELF files promises.

use vstd::prelude::*;
use vstd::utf8::encode_utf8;

use crate::bytes::{byte_position, lemma_byte_position, lemma_byte_position_is};
use crate::compatibility::elf::{
    after_entry, dynamic_count, dynamic_entry, dynamic_from, dynamic_texts, elf_of, empty_dynamic,
    file_offset, header_of, segment_fields, segments_of, table_text, table_texts,
    DynamicModel, ElfClass, ElfHeader, ElfModel, LoadSegment, SegmentsModel, ELF_MAGIC,
};
use crate::compatibility::integer::{field, numbers_fit_their_width, unsigned, values};
use crate::encoding::lemma_decoded;

verus! {

// ---------------------------------------------------------------------------
// Numbers
// ---------------------------------------------------------------------------
/// In one byte order the first byte weighs least, in the other the last one.
pub proof fn byte_orders_are_opposite(bytes: Seq<u8>, byte: u8)
    ensures
        unsigned(seq![], true) == 0,
        unsigned(seq![], false) == 0,
        unsigned(seq![byte] + bytes, true) == byte + 256 * unsigned(bytes, true),
        unsigned(bytes.push(byte), false) == 256 * unsigned(bytes, false) + byte,
        unsigned(bytes, true) == unsigned(bytes.reverse(), false),
{
    assert(Seq::<u8>::empty().reverse() =~= Seq::<u8>::empty());
    assert((seq![byte] + bytes).reverse() =~= bytes.reverse().push(byte));
    assert(bytes.reverse().push(byte).drop_last() =~= bytes.reverse());
    assert(bytes.push(byte).drop_last() =~= bytes);
}

proof fn lemma_field_fits(file: Seq<u8>, offset: int, width: int, little_endian: bool)
    requires
        0 <= offset,
        offset + width <= file.len(),
        width == 2 || width == 4 || width == 8,
    ensures
        width == 2 ==> field(file, offset, width, little_endian) <= u16::MAX,
        width == 4 ==> field(file, offset, width, little_endian) <= u32::MAX,
        field(file, offset, width, little_endian) <= u64::MAX,
{
    let part = file.subrange(offset, offset + width);
    numbers_fit_their_width(part);
    numbers_fit_their_width(part.reverse());
    reveal_with_fuel(values, 9);
}

// ---------------------------------------------------------------------------
// Dynamic table
// ---------------------------------------------------------------------------
/// The value of the last entry with a tag, if there is one.
pub open spec fn is_last_value(entries: Seq<(u64, u64)>, tag: u64, value: Option<u64>) -> bool {
    &&& value is None <==> forall|index: int|
        0 <= index < entries.len() ==> (#[trigger] entries[index]).0 != tag
    &&& value matches Some(found) ==> exists|index: int|
        {
            &&& 0 <= index < entries.len()
            &&& #[trigger] entries[index] == (tag, found)
            &&& forall|later: int|
                index < later < entries.len() ==> (#[trigger] entries[later]).0 != tag
        }
}

/// The model holds what the entries say: the values of all needed libraries and
/// of all search paths in their order, and the last place and size of the
/// strings.
pub open spec fn tells_entries(dynamic: DynamicModel, entries: Seq<(u64, u64)>) -> bool {
    &&& dynamic.needed == entries.filter(|entry: (u64, u64)| entry.0 == 1).map_values(
        |entry: (u64, u64)| entry.1,
    )
    &&& dynamic.paths == entries.filter(
        |entry: (u64, u64)| entry.0 == 15 || entry.0 == 29,
    ).map_values(|entry: (u64, u64)| entry.1)
    &&& is_last_value(entries, 5, dynamic.table_address)
    &&& is_last_value(entries, 10, dynamic.table_size)
}

proof fn lemma_last_value(
    entries: Seq<(u64, u64)>,
    entry: (u64, u64),
    tag: u64,
    before: Option<u64>,
    after: Option<u64>,
)
    requires
        is_last_value(entries, tag, before),
        after == if entry.0 == tag {
            Some(entry.1)
        } else {
            before
        },
    ensures
        is_last_value(entries.push(entry), tag, after),
{
    let longer = entries.push(entry);
    assert(longer[entries.len() as int] == entry);
    assert forall|index: int| 0 <= index < entries.len() implies #[trigger] longer[index]
        == entries[index] by {}
    if entry.0 != tag {
        if let Some(found) = before {
            let index = choose|index: int|
                {
                    &&& 0 <= index < entries.len()
                    &&& #[trigger] entries[index] == (tag, found)
                    &&& forall|later: int|
                        index < later < entries.len() ==> (#[trigger] entries[later]).0 != tag
                };
            assert(longer[index] == (tag, found));
            assert forall|later: int| index < later < longer.len() implies (
            #[trigger] longer[later]).0 != tag by {
                if later < entries.len() {
                    assert(entries[later].0 != tag);
                }
            }
            assert(longer[index].0 == tag);
        } else {
            assert forall|index: int| 0 <= index < longer.len() implies (
            #[trigger] longer[index]).0 != tag by {
                if index < entries.len() {
                    assert(entries[index].0 != tag);
                }
            }
        }
    }
}

proof fn lemma_entry_is_told(dynamic: DynamicModel, entries: Seq<(u64, u64)>, entry: (u64, u64))
    requires
        tells_entries(dynamic, entries),
    ensures
        tells_entries(after_entry(dynamic, entry), entries.push(entry)),
{
    let longer = entries.push(entry);
    let after = after_entry(dynamic, entry);
    assert(longer.drop_last() =~= entries);
    assert(longer.last() == entry);
    reveal(Seq::filter);
    let is_needed = |entry: (u64, u64)| entry.0 == 1;
    let is_path = |entry: (u64, u64)| entry.0 == 15 || entry.0 == 29;
    let value = |entry: (u64, u64)| entry.1;
    assert(entries.filter(is_needed).push(entry).map_values(value) =~= entries.filter(
        is_needed,
    ).map_values(value).push(entry.1));
    assert(entries.filter(is_path).push(entry).map_values(value) =~= entries.filter(
        is_path,
    ).map_values(value).push(entry.1));
    assert(after.needed == longer.filter(is_needed).map_values(value));
    assert(after.paths == longer.filter(is_path).map_values(value));
    lemma_last_value(entries, entry, 5, dynamic.table_address, after.table_address);
    lemma_last_value(entries, entry, 10, dynamic.table_size, after.table_size);
}

proof fn lemma_dynamic_from(
    file: Seq<u8>,
    class: ElfClass,
    little_endian: bool,
    offset: int,
    count: int,
    entries: Seq<(u64, u64)>,
    index: int,
    dynamic: DynamicModel,
)
    requires
        0 <= index <= entries.len() <= count,
        forall|at: int|
            0 <= at < entries.len() ==> #[trigger] entries[at] == dynamic_entry(
                file,
                class,
                little_endian,
                offset,
                at,
            ) && entries[at].0 != 0,
        entries.len() < count ==> dynamic_entry(
            file,
            class,
            little_endian,
            offset,
            entries.len() as int,
        ).0 == 0,
        tells_entries(dynamic, entries.take(index)),
    ensures
        tells_entries(
            dynamic_from(file, class, little_endian, offset, count, index, dynamic),
            entries,
        ),
    decreases entries.len() - index,
{
    if index < entries.len() {
        let entry = entries[index];
        lemma_entry_is_told(dynamic, entries.take(index), entry);
        assert(entries.take(index).push(entry) =~= entries.take(index + 1));
        lemma_dynamic_from(
            file,
            class,
            little_endian,
            offset,
            count,
            entries,
            index + 1,
            after_entry(dynamic, entry),
        );
    } else {
        assert(entries.take(index) =~= entries);
    }
}

/// The number of bytes of half an entry of the dynamic table.
pub open spec fn word_width(class: ElfClass) -> int {
    if class is Elf64 {
        8
    } else {
        4
    }
}

/// The entries are those of a dynamic table up to its null entry, its end or
/// the greatest number of entries.
pub open spec fn are_table_entries(
    file: Seq<u8>,
    class: ElfClass,
    little_endian: bool,
    offset: int,
    size: int,
    entries: Seq<(u64, u64)>,
) -> bool {
    let width = word_width(class);
    let length = entries.len() as int;
    &&& length <= 65_536
    &&& length * (2 * width) <= size
    &&& forall|index: int|
        0 <= index < entries.len() ==> {
            let at = offset + index * (2 * width);
            &&& (#[trigger] entries[index]).0 == field(file, at, width, little_endian)
            &&& entries[index].1 == field(file, at + width, width, little_endian)
            &&& entries[index].0 != 0
        }
    &&& {
        ||| length == 65_536
        ||| (length + 1) * (2 * width) > size
        ||| field(file, offset + length * (2 * width), width, little_endian) == 0
    }
}

proof fn lemma_table_entry(
    file: Seq<u8>,
    class: ElfClass,
    little_endian: bool,
    offset: int,
    size: int,
    index: int,
)
    requires
        0 <= offset,
        offset + size <= file.len(),
        0 <= index,
        (index + 1) * (2 * word_width(class)) <= size,
    ensures
        ({
            let width = word_width(class);
            let at = offset + index * (2 * width);
            let entry = dynamic_entry(file, class, little_endian, offset, index);
            &&& entry.0 == field(file, at, width, little_endian)
            &&& entry.1 == field(file, at + width, width, little_endian)
        }),
{
    let width = word_width(class);
    assert((index + 1) * (2 * width) == index * (2 * width) + 2 * width) by (nonlinear_arith);
    assert(0 <= index * (2 * width)) by (nonlinear_arith)
        requires
            0 <= index,
            0 <= width,
    ;
    let at = offset + index * (2 * width);
    lemma_field_fits(file, at, width, little_endian);
    lemma_field_fits(file, at + width, width, little_endian);
}

proof fn lemma_table_count(class: ElfClass, size: int, length: int)
    requires
        0 <= length,
        0 <= size,
    ensures
        length < dynamic_count(class, size) <==> length < 65_536 && (length + 1) * (2 * word_width(
            class,
        )) <= size,
{
    let step = 2 * word_width(class);
    vstd::arithmetic::div_mod::lemma_fundamental_div_mod(size, step);
    let whole = size / step;
    if length < whole {
        assert((length + 1) * step <= step * whole) by (nonlinear_arith)
            requires
                length + 1 <= whole,
                0 < step,
        ;
    } else {
        assert((length + 1) * step >= step * whole + step) by (nonlinear_arith)
            requires
                length >= whole,
                0 < step,
        ;
    }
}

/// Every entry of a dynamic table in front of its null entry is kept: the
/// needed libraries are the values of all entries that name one, in their order,
/// and so are the search paths.
pub proof fn dynamic_tables_keep_every_entry(
    file: Seq<u8>,
    class: ElfClass,
    little_endian: bool,
    offset: int,
    size: int,
    entries: Seq<(u64, u64)>,
)
    requires
        0 <= offset,
        0 <= size,
        offset + size <= file.len(),
        are_table_entries(file, class, little_endian, offset, size, entries),
    ensures
        tells_entries(
            dynamic_from(
                file,
                class,
                little_endian,
                offset,
                dynamic_count(class, size),
                0,
                empty_dynamic(),
            ),
            entries,
        ),
{
    let count = dynamic_count(class, size);
    let width = word_width(class);
    let length = entries.len() as int;
    lemma_table_count(class, size, length);
    assert(length <= count) by {
        if length > 0 {
            lemma_table_count(class, size, length - 1);
        }
    }
    assert forall|at: int| 0 <= at < entries.len() implies #[trigger] entries[at] == dynamic_entry(
        file,
        class,
        little_endian,
        offset,
        at,
    ) && entries[at].0 != 0 by {
        assert((at + 1) * (2 * width) <= length * (2 * width)) by (nonlinear_arith)
            requires
                at + 1 <= length,
                0 < width,
        ;
        lemma_table_entry(file, class, little_endian, offset, size, at);
    }
    if length < count {
        lemma_table_entry(file, class, little_endian, offset, size, length);
    }
    let none = entries.take(0);
    assert(none =~= Seq::<(u64, u64)>::empty());
    assert(tells_entries(empty_dynamic(), none)) by {
        reveal(Seq::filter);
        let is_needed = |entry: (u64, u64)| entry.0 == 1;
        let is_path = |entry: (u64, u64)| entry.0 == 15 || entry.0 == 29;
        let value = |entry: (u64, u64)| entry.1;
        assert(none.filter(is_needed).map_values(value) =~= seq![]);
        assert(none.filter(is_path).map_values(value) =~= seq![]);
    }
    lemma_dynamic_from(
        file,
        class,
        little_endian,
        offset,
        count,
        entries,
        0,
        empty_dynamic(),
    );
}

// ---------------------------------------------------------------------------
// Header and segments
// ---------------------------------------------------------------------------
/// The fields of an ELF header stand at fixed places, which the class and the
/// byte order of the file decide.
pub proof fn headers_stand_at_fixed_places(file: Seq<u8>, name: Seq<char>)
    ensures
        header_of(file, name) matches Ok(header) ==> {
            let little = file[5] == 1;
            &&& header.little_endian == little
            &&& header.class is Elf64 <==> file[4] == 2
            &&& header.class is Elf32 <==> file[4] == 1
            &&& header.machine == field(file, 18, 2, little)
            &&& header.class is Elf64 ==> {
                &&& header.program_offset == field(file, 32, 8, little)
                &&& header.entry_size == field(file, 54, 2, little)
                &&& header.program_count == field(file, 56, 2, little)
                &&& header.program_count > 0 ==> header.entry_size >= 56
            }
            &&& header.class is Elf32 ==> {
                &&& header.program_offset == field(file, 28, 4, little)
                &&& header.entry_size == field(file, 42, 2, little)
                &&& header.program_count == field(file, 44, 2, little)
                &&& header.program_count > 0 ==> header.entry_size >= 32
            }
            &&& header.program_offset + header.program_count * header.entry_size <= file.len()
        },
{
    if let Ok(header) = header_of(file, name) {
        let little = file[5] == 1;
        lemma_field_fits(file, 18, 2, little);
        if file[4] == 2 {
            lemma_field_fits(file, 32, 8, little);
            lemma_field_fits(file, 54, 2, little);
            lemma_field_fits(file, 56, 2, little);
        } else {
            lemma_field_fits(file, 28, 4, little);
            lemma_field_fits(file, 42, 2, little);
            lemma_field_fits(file, 44, 2, little);
        }
        assert(header.program_count * header.entry_size == header.entry_size
            * header.program_count) by (nonlinear_arith);
    }
}

/// The fields of a program header stand at fixed places from its start.
pub proof fn program_headers_stand_at_fixed_places(
    file: Seq<u8>,
    header: ElfHeader,
    name: Seq<char>,
    index: int,
)
    requires
        header_of(file, name) == Ok::<ElfHeader, Seq<char>>(header),
        0 <= index < header.program_count,
    ensures
        ({
            let (sort, offset, address, size) = segment_fields(file, header, index);
            let at = header.program_offset + index * header.entry_size;
            let little = header.little_endian;
            &&& sort == field(file, at, 4, little)
            &&& header.class is Elf64 ==> {
                &&& offset == field(file, at + 8, 8, little)
                &&& address == field(file, at + 16, 8, little)
                &&& size == field(file, at + 32, 8, little)
            }
            &&& header.class is Elf32 ==> {
                &&& offset == field(file, at + 4, 4, little)
                &&& address == field(file, at + 8, 4, little)
                &&& size == field(file, at + 16, 4, little)
            }
        }),
{
    headers_stand_at_fixed_places(file, name);
    let little = header.little_endian;
    let size = header.entry_size as int;
    let at = header.program_offset + index * size;
    assert((index + 1) * size <= header.program_count * size) by (nonlinear_arith)
        requires
            index + 1 <= header.program_count,
            0 <= size,
    ;
    assert((index + 1) * size == index * size + size) by (nonlinear_arith);
    assert(0 <= index * size) by (nonlinear_arith)
        requires
            0 <= index,
            0 <= size,
    ;
    lemma_field_fits(file, at, 4, little);
    if header.class is Elf64 {
        lemma_field_fits(file, at + 8, 8, little);
        lemma_field_fits(file, at + 16, 8, little);
        lemma_field_fits(file, at + 32, 8, little);
    } else {
        lemma_field_fits(file, at + 4, 4, little);
        lemma_field_fits(file, at + 8, 4, little);
        lemma_field_fits(file, at + 16, 4, little);
    }
}

/// The program headers of a file.
pub open spec fn program_headers(file: Seq<u8>, header: ElfHeader, count: nat) -> Seq<
    (u32, u64, u64, u64),
> {
    Seq::new(count, |index: int| segment_fields(file, header, index))
}

/// The program header is the last one of its sort.
pub open spec fn is_last_of_sort(all: Seq<(u32, u64, u64, u64)>, index: int) -> bool {
    &&& 0 <= index < all.len()
    &&& forall|later: int|
        index < later < all.len() ==> (#[trigger] all[later]).0 != all[index].0
}

/// The interpreter is the text that stands in a part of the file.
pub open spec fn names_interpreter(
    segments: SegmentsModel,
    file: Seq<u8>,
    part: (u32, u64, u64, u64),
) -> bool {
    segments.interpreter is Some && holds_text(
        file.subrange(part.1 as int, part.1 + part.3),
        0,
        segments.interpreter->0,
    )
}

/// What the program headers say: each loaded part of the file, in their order,
/// the last dynamic table, and the last interpreter.
pub open spec fn tells_headers(
    segments: SegmentsModel,
    file: Seq<u8>,
    all: Seq<(u32, u64, u64, u64)>,
) -> bool {
    &&& segments.loads == all.filter(|part: (u32, u64, u64, u64)| part.0 == 1).map_values(
        |part: (u32, u64, u64, u64)|
            LoadSegment { offset: part.1, virtual_address: part.2, file_size: part.3 },
    )
    &&& forall|index: int|
        #![trigger all[index]]
        0 <= index < all.len() ==> {
            &&& all[index].1 + all[index].3 <= file.len()
            &&& all[index].0 == 2 && is_last_of_sort(all, index) ==> segments.dynamic == Some(
                (all[index].1, all[index].3),
            )
            &&& all[index].0 == 3 && is_last_of_sort(all, index) ==> names_interpreter(
                segments,
                file,
                all[index],
            )
        }
    &&& segments.dynamic is Some ==> exists|index: int|
        0 <= index < all.len() && (#[trigger] all[index]).0 == 2
    &&& segments.interpreter is Some ==> exists|index: int|
        0 <= index < all.len() && (#[trigger] all[index]).0 == 3
}

/// Every program header counts: all loaded parts are kept in their order, and
/// the dynamic table and the interpreter are those of the last program headers
/// of their sorts.
pub proof fn every_program_header_counts(
    file: Seq<u8>,
    header: ElfHeader,
    name: Seq<char>,
    count: nat,
)
    ensures
        segments_of(file, header, name, count) matches Ok(segments) ==> tells_headers(
            segments,
            file,
            program_headers(file, header, count),
        ),
    decreases count,
{
    let all = program_headers(file, header, count);
    let is_load = |part: (u32, u64, u64, u64)| part.0 == 1;
    let load = |part: (u32, u64, u64, u64)|
        LoadSegment { offset: part.1, virtual_address: part.2, file_size: part.3 };
    reveal(Seq::filter);
    if count == 0 {
        assert(all =~= seq![]);
        assert(all.filter(is_load).map_values(load) =~= seq![]);
    } else {
        let fewer = program_headers(file, header, (count - 1) as nat);
        every_program_header_counts(file, header, name, (count - 1) as nat);
        let part = segment_fields(file, header, count - 1);
        texts_end_at_a_zero_byte(file.subrange(part.1 as int, part.1 + part.3), 0);
        assert(all =~= fewer.push(part));
        assert(all.drop_last() =~= fewer);
        assert(all.last() == part);
        if let Ok(segments) = segments_of(file, header, name, count) {
            let before = segments_of(file, header, name, (count - 1) as nat)->Ok_0;
            assert(tells_headers(before, file, fewer));
            assert(fewer.filter(is_load).push(part).map_values(load) =~= fewer.filter(
                is_load,
            ).map_values(load).push(load(part)));
            assert(segments.loads == all.filter(is_load).map_values(load));
            assert forall|index: int|
                #![trigger all[index]]
                0 <= index < all.len() implies {
                &&& all[index].1 + all[index].3 <= file.len()
                &&& all[index].0 == 2 && is_last_of_sort(all, index) ==> segments.dynamic == Some(
                    (all[index].1, all[index].3),
                )
                &&& all[index].0 == 3 && is_last_of_sort(all, index) ==> names_interpreter(
                segments,
                file,
                all[index],
            )
            } by {
                if index < fewer.len() {
                    assert(fewer[index] == all[index]);
                    if is_last_of_sort(all, index) {
                        assert(all[count - 1].0 != all[index].0);
                        assert(is_last_of_sort(fewer, index)) by {
                            assert forall|later: int| index < later < fewer.len() implies (
                            #[trigger] fewer[later]).0 != fewer[index].0 by {
                                assert(all[later] == fewer[later]);
                            }
                        }
                    }
                }
            }
            if segments.dynamic is Some {
                if part.0 == 2 {
                    assert(all[count - 1].0 == 2);
                } else {
                    let index = choose|index: int|
                        0 <= index < fewer.len() && (#[trigger] fewer[index]).0 == 2;
                    assert(all[index].0 == 2);
                }
            }
            if segments.interpreter is Some {
                if part.0 == 3 {
                    assert(all[count - 1].0 == 3);
                } else {
                    let index = choose|index: int|
                        0 <= index < fewer.len() && (#[trigger] fewer[index]).0 == 3;
                    assert(all[index].0 == 3);
                }
            }
        }
    }
}

// ---------------------------------------------------------------------------
// Strings
// ---------------------------------------------------------------------------
/// The bytes hold the text from an offset up to a zero byte or their end.
pub open spec fn holds_text(bytes: Seq<u8>, offset: int, text: Seq<char>) -> bool {
    let end = offset + encode_utf8(text).len();
    &&& 0 <= offset < end <= bytes.len()
    &&& bytes.subrange(offset, end) == encode_utf8(text)
    &&& forall|index: int| offset <= index < end ==> #[trigger] bytes[index] != 0
    &&& end == bytes.len() || bytes[end] == 0
}

/// A text in a table of strings is what stands there up to the next zero byte.
pub proof fn texts_end_at_a_zero_byte(strings: Seq<u8>, offset: int)
    requires
        0 <= offset,
    ensures
        table_text(strings, offset) matches Ok(text) ==> holds_text(strings, offset, text),
{
    if let Ok(text) = table_text(strings, offset) {
        let tail = strings.skip(offset);
        let end = byte_position(tail, 0) as int;
        lemma_byte_position(tail, 0);
        vstd::utf8::decode_utf8_encode_utf8(tail.take(end));
        assert(strings.subrange(offset, offset + end) =~= tail.take(end));
        assert forall|index: int| offset <= index < offset + end implies #[trigger] strings[index]
            != 0 by {
            assert(tail[index - offset] != 0);
        }
        if end < tail.len() {
            assert(strings[offset + end] == tail[end]);
        }
    }
}

/// Each offset of a list gives one text.
pub proof fn every_offset_gives_a_text(strings: Seq<u8>, offsets: Seq<u64>)
    ensures
        table_texts(strings, offsets) matches Ok(texts) ==> {
            &&& texts.len() == offsets.len()
            &&& forall|index: int|
                0 <= index < texts.len() ==> holds_text(
                    strings,
                    offsets[index] as int,
                    #[trigger] texts[index],
                )
        },
    decreases offsets.len(),
{
    if offsets.len() > 0 {
        every_offset_gives_a_text(strings, offsets.drop_last());
        texts_end_at_a_zero_byte(strings, offsets.last() as int);
        if let Ok(texts) = table_texts(strings, offsets) {
            let before = table_texts(strings, offsets.drop_last())->Ok_0;
            assert forall|index: int| 0 <= index < texts.len() implies holds_text(
                strings,
                offsets[index] as int,
                #[trigger] texts[index],
            ) by {
                if index < before.len() {
                    assert(texts[index] == before[index]);
                    assert(offsets.drop_last()[index] == offsets[index]);
                }
            }
        }
    }
}

/// The file offset of an address lies as far behind the start of a loaded part
/// in the file as the address lies behind its start in memory.
pub proof fn addresses_keep_their_distance(address: int, loads: Seq<LoadSegment>)
    ensures
        match file_offset(address, loads) {
            Some(offset) => exists|index: int|
                {
                    let load = #[trigger] loads[index];
                    &&& 0 <= index < loads.len()
                    &&& load.virtual_address <= address < load.virtual_address + load.file_size
                    &&& offset - load.offset == address - load.virtual_address
                },
            None => forall|index: int|
                0 <= index < loads.len() ==> {
                    let load = #[trigger] loads[index];
                    ||| address < load.virtual_address
                    ||| address >= load.virtual_address + load.file_size
                    ||| load.offset + (address - load.virtual_address) > u64::MAX
                },
        },
    decreases loads.len(),
{
    if loads.len() > 0 {
        let rest = loads.drop_first();
        addresses_keep_their_distance(address, rest);
        assert(loads[0] == loads[0]);
        match file_offset(address, rest) {
            Some(offset) => {
                let index = choose|index: int|
                    {
                        let load = #[trigger] rest[index];
                        &&& 0 <= index < rest.len()
                        &&& load.virtual_address <= address < load.virtual_address
                            + load.file_size
                        &&& offset - load.offset == address - load.virtual_address
                    };
                assert(rest[index] == loads[index + 1]);
            },
            None => {
                assert forall|index: int| 1 <= index < loads.len() implies {
                    let load = #[trigger] loads[index];
                    ||| address < load.virtual_address
                    ||| address >= load.virtual_address + load.file_size
                    ||| load.offset + (address - load.virtual_address) > u64::MAX
                } by {
                    assert(rest[index - 1] == loads[index]);
                }
            },
        }
    }
}

// ---------------------------------------------------------------------------
// Files
// ---------------------------------------------------------------------------
/// The texts are those that a file holds for a list of offsets into the strings
/// at an address.
pub open spec fn are_texts_at(
    file: Seq<u8>,
    loads: Seq<LoadSegment>,
    dynamic: DynamicModel,
    offsets: Seq<u64>,
    texts: Seq<Seq<char>>,
) -> bool {
    &&& texts.len() == offsets.len()
    &&& texts.len() > 0 ==> dynamic.table_address is Some && dynamic.table_size is Some
        && file_offset(dynamic.table_address->0 as int, loads) is Some
    &&& forall|index: int|
        0 <= index < texts.len() ==> {
            let start = file_offset(dynamic.table_address->0 as int, loads)->0;
            holds_text(
                file.subrange(start, start + dynamic.table_size->0),
                offsets[index] as int,
                #[trigger] texts[index],
            )
        }
}

/// A file needs each library that its dynamic table names, in their order, and
/// searches the paths that the table names; without a table it needs nothing.
pub proof fn files_need_what_their_tables_name(file: Seq<u8>, name: Seq<char>)
    ensures
        elf_of(file, name) matches Ok(Some(elf)) ==> {
            let header = header_of(file, name)->Ok_0;
            let segments = segments_of(file, header, name, header.program_count as nat)->Ok_0;
            &&& file.len() >= 4 && file[0] == 0x7f && file[1] == 'E' as u8 && file[2] == 'L' as u8
                && file[3] == 'F' as u8
            &&& header_of(file, name) is Ok
            &&& segments_of(file, header, name, header.program_count as nat) is Ok
            &&& elf.class == header.class
            &&& elf.little_endian == header.little_endian
            &&& elf.machine == header.machine
            &&& elf.interpreter == segments.interpreter
            &&& match segments.dynamic {
                None => elf.needed.len() == 0 && elf.runtime_paths.len() == 0,
                Some((offset, size)) => {
                    let dynamic = dynamic_from(
                        file,
                        header.class,
                        header.little_endian,
                        offset as int,
                        dynamic_count(header.class, size as int),
                        0,
                        empty_dynamic(),
                    );
                    &&& are_texts_at(file, segments.loads, dynamic, dynamic.needed, elf.needed)
                    &&& are_texts_at(
                        file,
                        segments.loads,
                        dynamic,
                        dynamic.paths,
                        elf.runtime_paths,
                    )
                },
            }
        },
{
    if let Ok(Some(_)) = elf_of(file, name) {
        let header = header_of(file, name)->Ok_0;
        let segments = segments_of(file, header, name, header.program_count as nat)->Ok_0;
        assert(file.take(4)[0] == 0x7f);
        assert(file.take(4)[1] == 0x45);
        assert(file.take(4)[2] == 0x4c);
        assert(file.take(4)[3] == 0x46);
        if let Some((offset, size)) = segments.dynamic {
            let dynamic = dynamic_from(
                file,
                header.class,
                header.little_endian,
                offset as int,
                dynamic_count(header.class, size as int),
                0,
                empty_dynamic(),
            );
            if dynamic.needed.len() > 0 || dynamic.paths.len() > 0 {
                let start = file_offset(dynamic.table_address->0 as int, segments.loads)->0;
                let strings = file.subrange(start, start + dynamic.table_size->0);
                every_offset_gives_a_text(strings, dynamic.needed);
                every_offset_gives_a_text(strings, dynamic.paths);
            }
        }
    }
}

// ---------------------------------------------------------------------------
// Accepted files
// ---------------------------------------------------------------------------
/// The header of the file is whole, and its program headers lie in the file.
pub open spec fn has_whole_header(file: Seq<u8>) -> bool {
    let little = file[5] == 1;
    &&& file.len() >= 52
    &&& file[4] == 1 || file[4] == 2
    &&& file[5] == 1 || file[5] == 2
    &&& file[4] == 2 ==> {
        let count = field(file, 56, 2, little);
        let size = field(file, 54, 2, little);
        &&& file.len() >= 64
        &&& count <= 4096
        &&& count > 0 ==> size >= 56
        &&& field(file, 32, 8, little) + count * size <= file.len()
    }
    &&& file[4] == 1 ==> {
        let count = field(file, 44, 2, little);
        let size = field(file, 42, 2, little);
        &&& count <= 4096
        &&& count > 0 ==> size >= 32
        &&& field(file, 28, 4, little) + count * size <= file.len()
    }
}

/// A header is accepted exactly if it is whole.
pub proof fn whole_headers_are_accepted(file: Seq<u8>, name: Seq<char>)
    ensures
        header_of(file, name) is Ok <==> has_whole_header(file),
{
    if file.len() >= 52 {
        let little = file[5] == 1;
        if file[4] == 2 && file.len() >= 64 {
            lemma_field_fits(file, 32, 8, little);
            lemma_field_fits(file, 54, 2, little);
            lemma_field_fits(file, 56, 2, little);
            let count = field(file, 56, 2, little);
            let size = field(file, 54, 2, little);
            assert(count * size == size * count) by (nonlinear_arith);
        }
        if file[4] == 1 {
            lemma_field_fits(file, 28, 4, little);
            lemma_field_fits(file, 42, 2, little);
            lemma_field_fits(file, 44, 2, little);
            let count = field(file, 44, 2, little);
            let size = field(file, 42, 2, little);
            assert(count * size == size * count) by (nonlinear_arith);
        }
    }
}

/// Any text that stands in a table of strings is found there.
pub proof fn texts_are_found(strings: Seq<u8>, offset: int, text: Seq<char>)
    requires
        holds_text(strings, offset, text),
        offset <= usize::MAX,
    ensures
        table_text(strings, offset) == Ok::<Seq<char>, Seq<char>>(text),
{
    let tail = strings.skip(offset);
    let length = encode_utf8(text).len() as int;
    assert forall|index: int| 0 <= index < length implies #[trigger] tail[index] != 0 by {
        assert(strings[offset + index] != 0);
    }
    lemma_byte_position_is(tail, 0, length);
    assert(tail.take(length) =~= strings.subrange(offset, offset + length));
    lemma_decoded(text, tail.take(length));
}

/// The part lies in the file, and an interpreter is a text of at most 4096 bytes.
pub open spec fn is_usable_part(file: Seq<u8>, part: (u32, u64, u64, u64)) -> bool {
    &&& part.1 + part.3 <= file.len()
    &&& part.0 == 3 ==> {
        &&& 1 <= part.3 <= 4096
        &&& leads_to_a_text(file.subrange(part.1 as int, part.1 + part.3), 0)
    }
}

/// The program headers are accepted exactly if each of them is usable.
pub proof fn usable_parts_are_accepted(
    file: Seq<u8>,
    header: ElfHeader,
    name: Seq<char>,
    count: nat,
)
    ensures
        segments_of(file, header, name, count) is Ok <==> forall|index: int|
            0 <= index < count ==> is_usable_part(
                file,
                #[trigger] segment_fields(file, header, index),
            ),
    decreases count,
{
    if count > 0 {
        usable_parts_are_accepted(file, header, name, (count - 1) as nat);
        let part = segment_fields(file, header, count - 1);
        let bytes = file.subrange(part.1 as int, part.1 + part.3);
        texts_end_at_a_zero_byte(bytes, 0);
        assert(segments_of(file, header, name, (count - 1) as nat) is Ok ==> (segments_of(
            file,
            header,
            name,
            count,
        ) is Ok <==> is_usable_part(file, part))) by {
            if part.1 + part.3 <= file.len() && part.0 == 3 && 1 <= part.3 <= 4096 {
                if exists|text: Seq<char>| #[trigger] holds_text(bytes, 0, text) {
                    let text = choose|text: Seq<char>| #[trigger] holds_text(bytes, 0, text);
                    texts_are_found(bytes, 0, text);
                }
            }
        }
        if segments_of(file, header, name, count) is Ok {
            assert forall|index: int| 0 <= index < count implies is_usable_part(
                file,
                #[trigger] segment_fields(file, header, index),
            ) by {
                if index == count - 1 {
                    assert(is_usable_part(file, part));
                }
            }
        } else if segments_of(file, header, name, (count - 1) as nat) is Ok {
            assert(!is_usable_part(file, segment_fields(file, header, count - 1)));
        } else {
            let index = choose|index: int|
                0 <= index < count - 1 && !is_usable_part(
                    file,
                    #[trigger] segment_fields(file, header, index),
                );
            assert(!is_usable_part(file, segment_fields(file, header, index)));
        }
    }
}

/// Some text stands at an offset.
pub open spec fn leads_to_a_text(strings: Seq<u8>, offset: int) -> bool {
    exists|text: Seq<char>| #[trigger] holds_text(strings, offset, text)
}

/// Some text stands at each offset of a list.
pub open spec fn lead_to_texts(strings: Seq<u8>, offsets: Seq<u64>) -> bool {
    forall|index: int|
        0 <= index < offsets.len() ==> leads_to_a_text(strings, (#[trigger] offsets[index]) as int)
}

proof fn lemma_text_is_found(strings: Seq<u8>, offset: int)
    requires
        0 <= offset,
        strings.len() <= usize::MAX,
    ensures
        table_text(strings, offset) is Ok <==> leads_to_a_text(strings, offset),
{
    texts_end_at_a_zero_byte(strings, offset);
    if leads_to_a_text(strings, offset) {
        let text = choose|text: Seq<char>| #[trigger] holds_text(strings, offset, text);
        texts_are_found(strings, offset, text);
    }
}

proof fn lemma_texts_are_found(strings: Seq<u8>, offsets: Seq<u64>)
    requires
        strings.len() <= usize::MAX,
    ensures
        table_texts(strings, offsets) is Ok <==> lead_to_texts(strings, offsets),
    decreases offsets.len(),
{
    if offsets.len() > 0 {
        let fewer = offsets.drop_last();
        lemma_texts_are_found(strings, fewer);
        lemma_text_is_found(strings, offsets.last() as int);
        if lead_to_texts(strings, offsets) {
            assert forall|index: int| 0 <= index < fewer.len() implies leads_to_a_text(
                strings,
                (#[trigger] fewer[index]) as int,
            ) by {
                assert(fewer[index] == offsets[index]);
            }
            assert(leads_to_a_text(strings, offsets[offsets.len() - 1] as int));
        } else {
            let index = choose|index: int|
                0 <= index < offsets.len() && !leads_to_a_text(
                    strings,
                    (#[trigger] offsets[index]) as int,
                );
            if index < fewer.len() {
                assert(fewer[index] == offsets[index]);
            }
        }
    }
}

/// The strings that a dynamic table leads to lie in the file, and each offset
/// into them leads to a text.
pub open spec fn has_strings(file: Seq<u8>, dynamic: DynamicModel, loads: Seq<LoadSegment>) -> bool {
    &&& dynamic.table_address is Some
    &&& dynamic.table_size is Some
    &&& 1 <= dynamic.table_size->0 <= 16_777_216
    &&& file_offset(dynamic.table_address->0 as int, loads) matches Some(start) && {
        let strings = file.subrange(start, start + dynamic.table_size->0);
        &&& start + dynamic.table_size->0 <= file.len()
        &&& lead_to_texts(strings, dynamic.needed)
        &&& lead_to_texts(strings, dynamic.paths)
    }
}

/// A dynamic table is accepted exactly if it names nothing, or if its strings
/// are in the file.
pub proof fn tables_with_strings_are_accepted(
    file: Seq<u8>,
    dynamic: DynamicModel,
    loads: Seq<LoadSegment>,
)
    requires
        file.len() <= usize::MAX,
    ensures
        dynamic_texts(file, dynamic, loads) is Ok <==> {
            ||| dynamic.needed.len() == 0 && dynamic.paths.len() == 0
            ||| has_strings(file, dynamic, loads)
        },
{
    if dynamic.table_address is Some && dynamic.table_size is Some {
        let size = dynamic.table_size->0;
        addresses_keep_their_distance(dynamic.table_address->0 as int, loads);
        if let Some(start) = file_offset(dynamic.table_address->0 as int, loads) {
            if start + size <= file.len() {
                let strings = file.subrange(start, start + size);
                lemma_texts_are_found(strings, dynamic.needed);
                lemma_texts_are_found(strings, dynamic.paths);
            }
        }
    }
}

/// A file without the signature is no ELF file, and one with it is either read
/// or refused.
pub proof fn the_signature_tells_elf_files(file: Seq<u8>, name: Seq<char>)
    ensures
        elf_of(file, name) == Ok::<Option<ElfModel>, Seq<char>>(None) <==> !(file.len() >= 4
            && file[0] == 0x7f && file[1] == 0x45 && file[2] == 0x4c && file[3] == 0x46),
        elf_of(file, name) matches Ok(Some(_)) ==> has_whole_header(file),
{
    whole_headers_are_accepted(file, name);
    if file.len() >= 4 {
        let start = file.take(4);
        if file[0] == 0x7f && file[1] == 0x45 && file[2] == 0x4c && file[3] == 0x46 {
            assert(start =~= ELF_MAGIC@);
        }
        if start == ELF_MAGIC@ {
            assert(start[0] == 0x7f && start[1] == 0x45 && start[2] == 0x4c && start[3] == 0x46);
        }
    }
}

} // verus!
