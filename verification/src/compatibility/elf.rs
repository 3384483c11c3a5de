//! The parts of an ELF file that decide whether it can run.

use vstd::prelude::*;
use vstd::slice::slice_subrange;
use vstd::utf8::{decode_utf8, valid_utf8};

use crate::bytes::{byte_position, find_byte, same};
use crate::compatibility::integer::{field, read_u16, read_u32, read_u64};
use crate::encoding::{decode, lemma_decoded};
use crate::error::{failure, AppError, Outcome, Result};
use crate::number::{decimal, decimal_text};

verus! {

pub const ELF_MAGIC: [u8; 4] = [0x7f, 0x45, 0x4c, 0x46];

pub const PT_LOAD: u32 = 1;

pub const PT_DYNAMIC: u32 = 2;

pub const PT_INTERP: u32 = 3;

pub const DT_NULL: u64 = 0;

pub const DT_NEEDED: u64 = 1;

pub const DT_STRTAB: u64 = 5;

pub const DT_STRSZ: u64 = 10;

pub const DT_RPATH: u64 = 15;

pub const DT_RUNPATH: u64 = 29;

pub const MAX_PROGRAM_HEADERS: u64 = 4096;

pub const MAX_DYNAMIC_ENTRIES: u64 = 65_536;

pub const MAX_INTERPRETER_BYTES: u64 = 4096;

pub const MAX_STRING_TABLE_BYTES: u64 = 16_777_216;

// ---------------------------------------------------------------------------
// Types
// ---------------------------------------------------------------------------
/// The word size of an ELF file.
#[derive(Clone, Copy, Debug, PartialEq, Eq, Structural)]
pub enum ElfClass {
    Elf32,
    Elf64,
}

/// What an ELF file needs from its host.
#[derive(Clone, Debug)]
pub struct ParsedElf {
    pub class: ElfClass,
    pub little_endian: bool,
    pub machine: u16,
    pub interpreter: Option<String>,
    pub needed: Vec<String>,
    pub runtime_paths: Vec<String>,
}

/// The mathematical value of a [`ParsedElf`].
pub struct ElfModel {
    pub class: ElfClass,
    pub little_endian: bool,
    pub machine: u16,
    pub interpreter: Option<Seq<char>>,
    pub needed: Seq<Seq<char>>,
    pub runtime_paths: Seq<Seq<char>>,
}

impl DeepView for ParsedElf {
    type V = ElfModel;

    open spec fn deep_view(&self) -> ElfModel {
        ElfModel {
            class: self.class,
            little_endian: self.little_endian,
            machine: self.machine,
            interpreter: self.interpreter.deep_view(),
            needed: self.needed.deep_view(),
            runtime_paths: self.runtime_paths.deep_view(),
        }
    }
}

/// The fields of an ELF header that lead to the program headers.
#[derive(Clone, Copy, Debug)]
pub struct ElfHeader {
    pub class: ElfClass,
    pub little_endian: bool,
    pub machine: u16,
    pub program_offset: u64,
    pub entry_size: u64,
    pub program_count: u64,
}

/// A part of the file that is loaded at an address.
#[derive(Clone, Copy, Debug)]
pub struct LoadSegment {
    pub offset: u64,
    pub virtual_address: u64,
    pub file_size: u64,
}

// ---------------------------------------------------------------------------
// Header
// ---------------------------------------------------------------------------
/// The file starts with the ELF signature.
pub open spec fn has_elf_magic(file: Seq<u8>) -> bool {
    file.len() >= 4 && file.take(4) == ELF_MAGIC@
}

/// The size of the smallest program header of a class.
pub open spec fn minimum_entry_size(class: ElfClass) -> int {
    match class {
        ElfClass::Elf32 => 32,
        ElfClass::Elf64 => 56,
    }
}

/// The header of a file that has the signature and at least 52 bytes.
pub open spec fn header_fields(
    file: Seq<u8>,
    class: ElfClass,
    little_endian: bool,
) -> ElfHeader {
    let machine = field(file, 18, 2, little_endian) as u16;
    match class {
        ElfClass::Elf32 => ElfHeader {
            class,
            little_endian,
            machine,
            program_offset: field(file, 28, 4, little_endian) as u64,
            entry_size: field(file, 42, 2, little_endian) as u64,
            program_count: field(file, 44, 2, little_endian) as u64,
        },
        ElfClass::Elf64 => ElfHeader {
            class,
            little_endian,
            machine,
            program_offset: field(file, 32, 8, little_endian) as u64,
            entry_size: field(file, 54, 2, little_endian) as u64,
            program_count: field(file, 56, 2, little_endian) as u64,
        },
    }
}

/// The header when its table of program headers is well-formed.
pub open spec fn checked_header(
    file: Seq<u8>,
    header: ElfHeader,
    name: Seq<char>,
) -> Outcome<ElfHeader> {
    if header.program_count > MAX_PROGRAM_HEADERS || (header.program_count > 0
        && header.entry_size < minimum_entry_size(header.class)) {
        Err("Invalid ELF program-header table in "@ + name)
    } else if header.program_offset + header.entry_size * header.program_count > file.len() {
        Err("ELF program-header table is outside "@ + name)
    } else {
        Ok(header)
    }
}

/// The header of a file with the ELF signature.
pub open spec fn header_of(file: Seq<u8>, name: Seq<char>) -> Outcome<ElfHeader> {
    if file.len() < 52 {
        Err("Truncated ELF header in "@ + name)
    } else if file[4] != 1 && file[4] != 2 {
        Err("Unsupported ELF class "@ + decimal(file[4] as nat) + " in "@ + name)
    } else if file[5] != 1 && file[5] != 2 {
        Err("Unsupported ELF byte order "@ + decimal(file[5] as nat) + " in "@ + name)
    } else {
        let class = if file[4] == 1 {
            ElfClass::Elf32
        } else {
            ElfClass::Elf64
        };
        if class == ElfClass::Elf64 && file.len() < 64 {
            Err("Truncated 64-bit ELF header in "@ + name)
        } else {
            checked_header(file, header_fields(file, class, file[5] == 1), name)
        }
    }
}

/// Test whether a file starts with the ELF signature.
pub fn is_elf(file: &[u8]) -> (result: bool)
    ensures
        result == has_elf_magic(file@),
{
    if file.len() < 4 {
        return false;
    }
    let start = slice_subrange(file, 0, 4);
    assert(start@ == file@.take(4));
    let magic = ELF_MAGIC;
    same(start, vstd::array::array_as_slice(&magic))
}

fn named_error(start: &str, name: &str) -> (result: AppError)
    ensures
        result@ == start@ + name@,
{
    AppError::new(String::from_str(start).concat(name))
}

fn numbered_error(start: &str, value: u8, name: &str) -> (result: AppError)
    ensures
        result@ == start@ + decimal(value as nat) + " in "@ + name@,
{
    AppError::new(
        String::from_str(start).concat(decimal_text(value as u64).as_str()).concat(" in ").concat(
            name,
        ),
    )
}

fn read_header(file: &[u8], name: &str) -> (result: Result<ElfHeader>)
    ensures
        match result {
            Ok(header) => header_of(file@, name@) == Ok::<ElfHeader, Seq<char>>(header),
            Err(error) => header_of(file@, name@) == Err::<ElfHeader, Seq<char>>(error@),
        },
{
    if file.len() < 52 {
        return Err(named_error("Truncated ELF header in ", name));
    }
    let class = match file[4] {
        1 => ElfClass::Elf32,
        2 => ElfClass::Elf64,
        value => return Err(numbered_error("Unsupported ELF class ", value, name)),
    };
    let little_endian = match file[5] {
        1 => true,
        2 => false,
        value => return Err(numbered_error("Unsupported ELF byte order ", value, name)),
    };
    let machine = read_u16(file, 18, little_endian);
    let header = match class {
        ElfClass::Elf32 => ElfHeader {
            class,
            little_endian,
            machine,
            program_offset: read_u32(file, 28, little_endian) as u64,
            entry_size: read_u16(file, 42, little_endian) as u64,
            program_count: read_u16(file, 44, little_endian) as u64,
        },
        ElfClass::Elf64 => {
            if file.len() < 64 {
                return Err(named_error("Truncated 64-bit ELF header in ", name));
            }
            ElfHeader {
                class,
                little_endian,
                machine,
                program_offset: read_u64(file, 32, little_endian),
                entry_size: read_u16(file, 54, little_endian) as u64,
                program_count: read_u16(file, 56, little_endian) as u64,
            }
        },
    };
    assert(header == header_fields(file@, class, little_endian));
    let minimum: u64 = match class {
        ElfClass::Elf32 => 32,
        ElfClass::Elf64 => 56,
    };
    if header.program_count > MAX_PROGRAM_HEADERS || (header.program_count > 0 && header.entry_size
        < minimum) {
        return Err(named_error("Invalid ELF program-header table in ", name));
    }
    assert(header.entry_size < 0x1_0000);
    assert(header.entry_size * header.program_count <= 0x1_0000 * 0x1_0000) by (nonlinear_arith)
        requires
            header.entry_size < 0x1_0000,
            header.program_count <= 4096,
    ;
    let table_size: u64 = header.entry_size * header.program_count;
    match header.program_offset.checked_add(table_size) {
        Some(end) if end <= file.len() as u64 => Ok(header),
        _ => Err(named_error("ELF program-header table is outside ", name)),
    }
}

// ---------------------------------------------------------------------------
// Strings
// ---------------------------------------------------------------------------
/// The text at an offset of a table of strings that end with a zero byte.
pub open spec fn table_text(strings: Seq<u8>, offset: int) -> Outcome<Seq<char>> {
    let tail = strings.skip(offset);
    let text = tail.take(byte_position(tail, 0) as int);
    if offset > usize::MAX {
        Err("ELF string offset is too large for this system."@)
    } else if offset > strings.len() {
        Err("ELF string offset is outside its string table."@)
    } else if text.len() == 0 {
        Err("ELF dynamic string is empty."@)
    } else if !valid_utf8(text) {
        Err("ELF dynamic string is not valid UTF-8."@)
    } else {
        Ok(decode_utf8(text))
    }
}

fn read_c_string(strings: &[u8], offset: u64) -> (result: Result<String>)
    ensures
        match result {
            Ok(text) => table_text(strings@, offset as int) == Ok::<Seq<char>, Seq<char>>(text@),
            Err(error) => table_text(strings@, offset as int) == Err::<Seq<char>, Seq<char>>(
                error@,
            ),
        },
{
    if offset > usize::MAX as u64 {
        return Err(failure("ELF string offset is too large for this system."));
    }
    let start: usize = offset as usize;
    if start > strings.len() {
        return Err(failure("ELF string offset is outside its string table."));
    }
    let tail = slice_subrange(strings, start, strings.len());
    assert(tail@ == strings@.skip(offset as int));
    let end = find_byte(tail, 0);
    if end == 0 {
        return Err(failure("ELF dynamic string is empty."));
    }
    let text = slice_subrange(tail, 0, end);
    assert(text@ == tail@.take(end as int));
    match decode(text) {
        Ok(decoded) => {
            proof {
                lemma_decoded(decoded@, text@);
            }
            Ok(decoded)
        },
        Err(_) => Err(failure("ELF dynamic string is not valid UTF-8.")),
    }
}

/// The texts at a list of offsets.
pub open spec fn table_texts(strings: Seq<u8>, offsets: Seq<u64>) -> Outcome<Seq<Seq<char>>>
    decreases offsets.len(),
{
    if offsets.len() == 0 {
        Ok(seq![])
    } else {
        match table_texts(strings, offsets.drop_last()) {
            Err(message) => Err(message),
            Ok(texts) => match table_text(strings, offsets.last() as int) {
                Err(message) => Err(message),
                Ok(text) => Ok(texts.push(text)),
            },
        }
    }
}

proof fn lemma_texts_prefix(strings: Seq<u8>, offsets: Seq<u64>, length: int)
    requires
        0 <= length <= offsets.len(),
        table_texts(strings, offsets.take(length)) is Err,
    ensures
        table_texts(strings, offsets) == table_texts(strings, offsets.take(length)),
    decreases offsets.len(),
{
    if length < offsets.len() {
        assert(offsets.drop_last().take(length) == offsets.take(length));
        lemma_texts_prefix(strings, offsets.drop_last(), length);
    } else {
        assert(offsets.take(length) == offsets);
    }
}

fn read_strings(strings: &[u8], offsets: &Vec<u64>) -> (result: Result<Vec<String>>)
    ensures
        match result {
            Ok(texts) => table_texts(strings@, offsets@) == Ok::<Seq<Seq<char>>, Seq<char>>(
                texts.deep_view(),
            ),
            Err(error) => table_texts(strings@, offsets@) == Err::<Seq<Seq<char>>, Seq<char>>(
                error@,
            ),
        },
{
    let mut texts: Vec<String> = Vec::new();
    assert(texts.deep_view() =~= Seq::<Seq<char>>::empty());
    for index in 0..offsets.len()
        invariant
            table_texts(strings@, offsets@.take(index as int)) == Ok::<Seq<Seq<char>>, Seq<char>>(
                texts.deep_view(),
            ),
    {
        let ghost before = texts.deep_view();
        proof {
            assert(offsets@.take(index + 1).drop_last() == offsets@.take(index as int));
            assert(offsets@.take(index + 1).last() == offsets@[index as int]);
            if table_text(strings@, offsets@[index as int] as int) is Err {
                lemma_texts_prefix(strings@, offsets@, index + 1);
            }
        }
        let text = read_c_string(strings, offsets[index])?;
        texts.push(text);
        assert(texts.deep_view() =~= before.push(text@));
    }
    assert(offsets@.take(offsets@.len() as int) == offsets@);
    Ok(texts)
}

// ---------------------------------------------------------------------------
// Segments
// ---------------------------------------------------------------------------
/// What the program headers say.
pub struct SegmentsModel {
    pub loads: Seq<LoadSegment>,
    /// The offset and the size of the dynamic table.
    pub dynamic: Option<(u64, u64)>,
    pub interpreter: Option<Seq<char>>,
}

/// The type, the file offset, the address and the file size of a segment.
pub open spec fn segment_fields(file: Seq<u8>, header: ElfHeader, index: int) -> (
    u32,
    u64,
    u64,
    u64,
) {
    let at = header.program_offset + index * header.entry_size;
    let little = header.little_endian;
    match header.class {
        ElfClass::Elf32 => (
            field(file, at, 4, little) as u32,
            field(file, at + 4, 4, little) as u64,
            field(file, at + 8, 4, little) as u64,
            field(file, at + 16, 4, little) as u64,
        ),
        ElfClass::Elf64 => (
            field(file, at, 4, little) as u32,
            field(file, at + 8, 8, little) as u64,
            field(file, at + 16, 8, little) as u64,
            field(file, at + 32, 8, little) as u64,
        ),
    }
}

/// What the program headers say after one more of them.
pub open spec fn after_segment(
    file: Seq<u8>,
    segment: (u32, u64, u64, u64),
    name: Seq<char>,
    segments: SegmentsModel,
) -> Outcome<SegmentsModel> {
    let (sort, offset, virtual_address, file_size) = segment;
    if offset + file_size > file.len() {
        Err("ELF segment is outside "@ + name)
    } else if sort == PT_LOAD {
        Ok(
            SegmentsModel {
                loads: segments.loads.push(LoadSegment { offset, virtual_address, file_size }),
                ..segments
            },
        )
    } else if sort == PT_DYNAMIC {
        Ok(SegmentsModel { dynamic: Some((offset, file_size)), ..segments })
    } else if sort == PT_INTERP {
        if file_size == 0 || file_size > MAX_INTERPRETER_BYTES {
            Err("Invalid ELF interpreter path in "@ + name)
        } else {
            match table_text(file.subrange(offset as int, offset + file_size), 0) {
                Err(message) => Err(message),
                Ok(text) => Ok(SegmentsModel { interpreter: Some(text), ..segments }),
            }
        }
    } else {
        Ok(segments)
    }
}

/// What the first program headers say.
pub open spec fn segments_of(
    file: Seq<u8>,
    header: ElfHeader,
    name: Seq<char>,
    count: nat,
) -> Outcome<SegmentsModel>
    decreases count,
{
    if count == 0 {
        Ok(SegmentsModel { loads: seq![], dynamic: None, interpreter: None })
    } else {
        match segments_of(file, header, name, (count - 1) as nat) {
            Err(message) => Err(message),
            Ok(segments) => after_segment(
                file,
                segment_fields(file, header, count - 1),
                name,
                segments,
            ),
        }
    }
}

proof fn lemma_segments_prefix(
    file: Seq<u8>,
    header: ElfHeader,
    name: Seq<char>,
    count: nat,
    shorter: nat,
)
    requires
        shorter <= count,
        segments_of(file, header, name, shorter) is Err,
    ensures
        segments_of(file, header, name, count) == segments_of(file, header, name, shorter),
    decreases count,
{
    if shorter < count {
        lemma_segments_prefix(file, header, name, (count - 1) as nat, shorter);
    }
}

struct Segments {
    loads: Vec<LoadSegment>,
    dynamic: Option<(u64, u64)>,
    interpreter: Option<String>,
}

impl DeepView for Segments {
    type V = SegmentsModel;

    closed spec fn deep_view(&self) -> SegmentsModel {
        SegmentsModel {
            loads: self.loads@,
            dynamic: self.dynamic,
            interpreter: self.interpreter.deep_view(),
        }
    }
}

fn read_segment(file: &[u8], header: &ElfHeader, index: u64) -> (result: (u32, u64, u64, u64))
    requires
        header.entry_size >= minimum_entry_size(header.class),
        header.program_offset + (index + 1) * header.entry_size <= file@.len(),
    ensures
        result == segment_fields(file@, *header, index as int),
{
    let length: usize = file.len();
    assert((index + 1) * header.entry_size == index * header.entry_size + header.entry_size)
        by (nonlinear_arith);
    assert(0 <= index * header.entry_size) by (nonlinear_arith)
        requires
            0 <= index,
            0 <= header.entry_size,
    ;
    let at: usize = (header.program_offset + index * header.entry_size) as usize;
    let little = header.little_endian;
    let sort = read_u32(file, at, little);
    match header.class {
        ElfClass::Elf32 => (
            sort,
            read_u32(file, at + 4, little) as u64,
            read_u32(file, at + 8, little) as u64,
            read_u32(file, at + 16, little) as u64,
        ),
        ElfClass::Elf64 => (
            sort,
            read_u64(file, at + 8, little),
            read_u64(file, at + 16, little),
            read_u64(file, at + 32, little),
        ),
    }
}

fn is_outside(offset: u64, size: u64, file_size: usize) -> (result: bool)
    ensures
        result == (offset + size > file_size),
{
    match offset.checked_add(size) {
        Some(end) => end > file_size as u64,
        None => true,
    }
}

fn add_segment(
    file: &[u8],
    segment: (u32, u64, u64, u64),
    name: &str,
    segments: Segments,
) -> (result: Result<Segments>)
    ensures
        match result {
            Ok(more) => after_segment(file@, segment, name@, segments.deep_view()) == Ok::<
                SegmentsModel,
                Seq<char>,
            >(more.deep_view()),
            Err(error) => after_segment(file@, segment, name@, segments.deep_view()) == Err::<
                SegmentsModel,
                Seq<char>,
            >(error@),
        },
{
    let (sort, offset, virtual_address, file_size) = segment;
    if is_outside(offset, file_size, file.len()) {
        return Err(named_error("ELF segment is outside ", name));
    }
    if sort == PT_LOAD {
        let Segments { mut loads, dynamic, interpreter } = segments;
        loads.push(LoadSegment { offset, virtual_address, file_size });
        Ok(Segments { loads, dynamic, interpreter })
    } else if sort == PT_DYNAMIC {
        Ok(
            Segments {
                loads: segments.loads,
                dynamic: Some((offset, file_size)),
                interpreter: segments.interpreter,
            },
        )
    } else if sort == PT_INTERP {
        if file_size == 0 || file_size > MAX_INTERPRETER_BYTES {
            return Err(named_error("Invalid ELF interpreter path in ", name));
        }
        let path = slice_subrange(file, offset as usize, (offset + file_size) as usize);
        let text = read_c_string(path, 0)?;
        Ok(
            Segments {
                loads: segments.loads,
                dynamic: segments.dynamic,
                interpreter: Some(text),
            },
        )
    } else {
        Ok(segments)
    }
}

fn read_segments(file: &[u8], header: &ElfHeader, name: &str) -> (result: Result<Segments>)
    requires
        checked_header(file@, *header, name@) is Ok,
    ensures
        match result {
            Ok(segments) => segments_of(file@, *header, name@, header.program_count as nat) == Ok::<
                SegmentsModel,
                Seq<char>,
            >(segments.deep_view()),
            Err(error) => segments_of(file@, *header, name@, header.program_count as nat) == Err::<
                SegmentsModel,
                Seq<char>,
            >(error@),
        },
{
    let mut segments = Segments { loads: Vec::new(), dynamic: None, interpreter: None };
    for index in 0..header.program_count
        invariant
            checked_header(file@, *header, name@) is Ok,
            segments_of(file@, *header, name@, index as nat) == Ok::<SegmentsModel, Seq<char>>(
                segments.deep_view(),
            ),
    {
        assert((index + 1) * header.entry_size <= header.entry_size * header.program_count)
            by (nonlinear_arith)
            requires
                index + 1 <= header.program_count,
                0 <= header.entry_size,
        ;
        let segment = read_segment(file, header, index);
        proof {
            if segments_of(file@, *header, name@, (index + 1) as nat) is Err {
                lemma_segments_prefix(
                    file@,
                    *header,
                    name@,
                    header.program_count as nat,
                    (index + 1) as nat,
                );
            }
        }
        segments = add_segment(file, segment, name, segments)?;
    }
    Ok(segments)
}

// ---------------------------------------------------------------------------
// Dynamic table
// ---------------------------------------------------------------------------
/// What a dynamic table says.
pub struct DynamicModel {
    pub needed: Seq<u64>,
    pub paths: Seq<u64>,
    pub table_address: Option<u64>,
    pub table_size: Option<u64>,
}

/// The size of an entry of the dynamic table.
pub open spec fn dynamic_entry_size(class: ElfClass) -> int {
    match class {
        ElfClass::Elf32 => 8,
        ElfClass::Elf64 => 16,
    }
}

/// The tag and the value of an entry of the dynamic table.
pub open spec fn dynamic_entry(
    file: Seq<u8>,
    class: ElfClass,
    little_endian: bool,
    offset: int,
    index: int,
) -> (u64, u64) {
    let half = dynamic_entry_size(class) / 2;
    let at = offset + index * dynamic_entry_size(class);
    (
        field(file, at, half, little_endian) as u64,
        field(file, at + half, half, little_endian) as u64,
    )
}

/// What the table says after one more entry.
pub open spec fn after_entry(dynamic: DynamicModel, entry: (u64, u64)) -> DynamicModel {
    let (tag, value) = entry;
    if tag == DT_NEEDED {
        DynamicModel { needed: dynamic.needed.push(value), ..dynamic }
    } else if tag == DT_STRTAB {
        DynamicModel { table_address: Some(value), ..dynamic }
    } else if tag == DT_STRSZ {
        DynamicModel { table_size: Some(value), ..dynamic }
    } else if tag == DT_RPATH || tag == DT_RUNPATH {
        DynamicModel { paths: dynamic.paths.push(value), ..dynamic }
    } else {
        dynamic
    }
}

/// What the rest of a table says.  An entry with the null tag ends the table.
pub open spec fn dynamic_from(
    file: Seq<u8>,
    class: ElfClass,
    little_endian: bool,
    offset: int,
    count: int,
    index: int,
    dynamic: DynamicModel,
) -> DynamicModel
    decreases count - index,
{
    if index >= count {
        dynamic
    } else {
        let entry = dynamic_entry(file, class, little_endian, offset, index);
        if entry.0 == DT_NULL {
            dynamic
        } else {
            dynamic_from(
                file,
                class,
                little_endian,
                offset,
                count,
                index + 1,
                after_entry(dynamic, entry),
            )
        }
    }
}

/// The number of entries that are read of a table of a size.
pub open spec fn dynamic_count(class: ElfClass, size: int) -> int {
    let whole = size / dynamic_entry_size(class);
    if whole > MAX_DYNAMIC_ENTRIES {
        MAX_DYNAMIC_ENTRIES as int
    } else {
        whole
    }
}

/// The file offset of a load segment is defined for the address.
pub open spec fn segment_holds(load: LoadSegment, address: int) -> bool {
    &&& address >= load.virtual_address
    &&& address - load.virtual_address < load.file_size
    &&& load.offset + (address - load.virtual_address) <= u64::MAX
}

/// The file offset of an address.
pub open spec fn file_offset(address: int, loads: Seq<LoadSegment>) -> Option<int>
    decreases loads.len(),
{
    if loads.len() == 0 {
        None
    } else if segment_holds(loads[0], address) {
        Some(loads[0].offset + (address - loads[0].virtual_address))
    } else {
        file_offset(address, loads.drop_first())
    }
}

/// The needed libraries and the runtime paths that a dynamic table names.
pub open spec fn dynamic_texts(
    file: Seq<u8>,
    dynamic: DynamicModel,
    loads: Seq<LoadSegment>,
) -> Outcome<(Seq<Seq<char>>, Seq<Seq<char>>)> {
    if dynamic.needed.len() == 0 && dynamic.paths.len() == 0 {
        Ok((seq![], seq![]))
    } else if dynamic.table_address is None {
        Err("ELF dynamic strings have no string-table address."@)
    } else if dynamic.table_size is None {
        Err("ELF dynamic strings have no string-table size."@)
    } else {
        let size = dynamic.table_size->0;
        if size == 0 || size > MAX_STRING_TABLE_BYTES {
            Err("ELF dynamic string table has an invalid size."@)
        } else {
            match file_offset(dynamic.table_address->0 as int, loads) {
                None => Err("ELF dynamic string table is not in a load segment."@),
                Some(offset) => if offset + size > file.len() {
                    Err("ELF segment is outside ELF file"@)
                } else {
                    let strings = file.subrange(offset, offset + size);
                    match table_texts(strings, dynamic.needed) {
                        Err(message) => Err(message),
                        Ok(needed) => match table_texts(strings, dynamic.paths) {
                            Err(message) => Err(message),
                            Ok(paths) => Ok((needed, paths)),
                        },
                    }
                },
            }
        }
    }
}

struct Dynamic {
    needed: Vec<u64>,
    paths: Vec<u64>,
    table_address: Option<u64>,
    table_size: Option<u64>,
}

impl DeepView for Dynamic {
    type V = DynamicModel;

    closed spec fn deep_view(&self) -> DynamicModel {
        DynamicModel {
            needed: self.needed@,
            paths: self.paths@,
            table_address: self.table_address,
            table_size: self.table_size,
        }
    }
}

/// A dynamic table that says nothing.
pub open spec fn empty_dynamic() -> DynamicModel {
    DynamicModel { needed: seq![], paths: seq![], table_address: None, table_size: None }
}

fn read_dynamic(file: &[u8], header: &ElfHeader, offset: u64, size: u64) -> (result: Dynamic)
    requires
        offset + size <= file@.len(),
    ensures
        result.deep_view() == dynamic_from(
            file@,
            header.class,
            header.little_endian,
            offset as int,
            dynamic_count(header.class, size as int),
            0,
            empty_dynamic(),
        ),
{
    let length: usize = file.len();
    let little = header.little_endian;
    let class = header.class;
    let entry_size: u64 = match class {
        ElfClass::Elf32 => 8,
        ElfClass::Elf64 => 16,
    };
    let whole: u64 = size / entry_size;
    let count: u64 = if whole > MAX_DYNAMIC_ENTRIES {
        MAX_DYNAMIC_ENTRIES
    } else {
        whole
    };
    assert(count == dynamic_count(class, size as int));
    assert(whole * entry_size <= size) by {
        vstd::arithmetic::div_mod::lemma_fundamental_div_mod(size as int, entry_size as int);
        assert(whole * entry_size == entry_size * whole) by (nonlinear_arith);
    }
    let mut dynamic = Dynamic {
        needed: Vec::new(),
        paths: Vec::new(),
        table_address: None,
        table_size: None,
    };
    let ghost goal = dynamic_from(
        file@,
        class,
        little,
        offset as int,
        count as int,
        0,
        empty_dynamic(),
    );
    let mut index: u64 = 0;
    while index < count
        invariant
            length == file@.len(),
            offset + size <= length,
            count <= whole,
            count <= MAX_DYNAMIC_ENTRIES,
            whole * entry_size <= size,
            entry_size == dynamic_entry_size(class),
            index <= count,
            class == header.class,
            little == header.little_endian,
            count == dynamic_count(class, size as int),
            goal == dynamic_from(
                file@,
                class,
                little,
                offset as int,
                count as int,
                0,
                empty_dynamic(),
            ),
            goal == dynamic_from(
                file@,
                class,
                little,
                offset as int,
                count as int,
                index as int,
                dynamic.deep_view(),
            ),
        decreases count - index,
    {
        assert((index + 1) * entry_size <= whole * entry_size) by (nonlinear_arith)
            requires
                index + 1 <= whole,
                0 <= entry_size,
        ;
        assert((index + 1) * entry_size == index * entry_size + entry_size) by (nonlinear_arith);
        assert(0 <= index * entry_size) by (nonlinear_arith)
            requires
                0 <= index,
                0 <= entry_size,
        ;
        let at: usize = (offset + index * entry_size) as usize;
        let (tag, value) = match class {
            ElfClass::Elf32 => (
                read_u32(file, at, little) as u64,
                read_u32(file, at + 4, little) as u64,
            ),
            ElfClass::Elf64 => (read_u64(file, at, little), read_u64(file, at + 8, little)),
        };
        assert((tag, value) == dynamic_entry(file@, class, little, offset as int, index as int));
        if tag == DT_NULL {
            return dynamic;
        } else if tag == DT_NEEDED {
            dynamic.needed.push(value);
        } else if tag == DT_STRTAB {
            dynamic.table_address = Some(value);
        } else if tag == DT_STRSZ {
            dynamic.table_size = Some(value);
        } else if tag == DT_RPATH || tag == DT_RUNPATH {
            dynamic.paths.push(value);
        }
        index += 1;
    }
    dynamic
}

fn virtual_to_file_offset(address: u64, loads: &Vec<LoadSegment>) -> (result: Option<u64>)
    ensures
        match result {
            Some(offset) => file_offset(address as int, loads@) == Some(offset as int),
            None => file_offset(address as int, loads@) is None,
        },
{
    assert(loads@.skip(0) == loads@);
    for index in 0..loads.len()
        invariant
            file_offset(address as int, loads@) == file_offset(
                address as int,
                loads@.skip(index as int),
            ),
    {
        let load = loads[index];
        assert(loads@.skip(index as int)[0] == load);
        assert(loads@.skip(index as int).drop_first() == loads@.skip(index + 1));
        if address >= load.virtual_address {
            let difference: u64 = address - load.virtual_address;
            if difference < load.file_size {
                if let Some(offset) = load.offset.checked_add(difference) {
                    return Some(offset);
                }
            }
        }
    }
    None
}

fn read_dynamic_strings(file: &[u8], dynamic: &Dynamic, loads: &Vec<LoadSegment>) -> (result:
    Result<(Vec<String>, Vec<String>)>)
    ensures
        match result {
            Ok((needed, paths)) => dynamic_texts(file@, dynamic.deep_view(), loads@) == Ok::<
                (Seq<Seq<char>>, Seq<Seq<char>>),
                Seq<char>,
            >((needed.deep_view(), paths.deep_view())),
            Err(error) => dynamic_texts(file@, dynamic.deep_view(), loads@) == Err::<
                (Seq<Seq<char>>, Seq<Seq<char>>),
                Seq<char>,
            >(error@),
        },
{
    if dynamic.needed.len() == 0 && dynamic.paths.len() == 0 {
        let nothing: Vec<String> = Vec::new();
        let none: Vec<String> = Vec::new();
        assert(nothing.deep_view() =~= Seq::<Seq<char>>::empty());
        assert(none.deep_view() =~= Seq::<Seq<char>>::empty());
        return Ok((nothing, none));
    }
    let address = match dynamic.table_address {
        Some(address) => address,
        None => return Err(failure("ELF dynamic strings have no string-table address.")),
    };
    let size = match dynamic.table_size {
        Some(size) => size,
        None => return Err(failure("ELF dynamic strings have no string-table size.")),
    };
    if size == 0 || size > MAX_STRING_TABLE_BYTES {
        return Err(failure("ELF dynamic string table has an invalid size."));
    }
    let offset = match virtual_to_file_offset(address, loads) {
        Some(offset) => offset,
        None => return Err(failure("ELF dynamic string table is not in a load segment.")),
    };
    if is_outside(offset, size, file.len()) {
        return Err(failure("ELF segment is outside ELF file"));
    }
    let strings = slice_subrange(file, offset as usize, (offset + size) as usize);
    let needed = read_strings(strings, &dynamic.needed)?;
    let paths = read_strings(strings, &dynamic.paths)?;
    Ok((needed, paths))
}

// ---------------------------------------------------------------------------
// File
// ---------------------------------------------------------------------------
/// What an ELF file needs, `None` for a file without the ELF signature.
pub open spec fn elf_of(file: Seq<u8>, name: Seq<char>) -> Outcome<Option<ElfModel>> {
    if !has_elf_magic(file) {
        Ok(None)
    } else {
        match header_of(file, name) {
            Err(message) => Err(message),
            Ok(header) => match segments_of(file, header, name, header.program_count as nat) {
                Err(message) => Err(message),
                Ok(segments) => match segment_texts(file, header, segments) {
                    Err(message) => Err(message),
                    Ok((needed, runtime_paths)) => Ok(
                        Some(
                            ElfModel {
                                class: header.class,
                                little_endian: header.little_endian,
                                machine: header.machine,
                                interpreter: segments.interpreter,
                                needed,
                                runtime_paths,
                            },
                        ),
                    ),
                },
            },
        }
    }
}

/// The needed libraries and the runtime paths that the segments lead to.
pub open spec fn segment_texts(
    file: Seq<u8>,
    header: ElfHeader,
    segments: SegmentsModel,
) -> Outcome<(Seq<Seq<char>>, Seq<Seq<char>>)> {
    match segments.dynamic {
        None => Ok((seq![], seq![])),
        Some((offset, size)) => dynamic_texts(
            file,
            dynamic_from(
                file,
                header.class,
                header.little_endian,
                offset as int,
                dynamic_count(header.class, size as int),
                0,
                empty_dynamic(),
            ),
            segments.loads,
        ),
    }
}

proof fn lemma_dynamic_inside(file: Seq<u8>, header: ElfHeader, name: Seq<char>, count: nat)
    ensures
        segments_of(file, header, name, count) matches Ok(segments) ==> (segments.dynamic matches
            Some(place) ==> place.0 + place.1 <= file.len()),
    decreases count,
{
    if count > 0 {
        lemma_dynamic_inside(file, header, name, (count - 1) as nat);
    }
}

fn parse_dynamic(file: &[u8], header: &ElfHeader, segments: &Segments) -> (result: Result<
    (Vec<String>, Vec<String>),
>)
    requires
        segments.deep_view().dynamic matches Some(place) ==> place.0 + place.1 <= file@.len(),
    ensures
        match result {
            Ok((needed, paths)) => segment_texts(file@, *header, segments.deep_view()) == Ok::<
                (Seq<Seq<char>>, Seq<Seq<char>>),
                Seq<char>,
            >((needed.deep_view(), paths.deep_view())),
            Err(error) => segment_texts(file@, *header, segments.deep_view()) == Err::<
                (Seq<Seq<char>>, Seq<Seq<char>>),
                Seq<char>,
            >(error@),
        },
{
    match segments.dynamic {
        None => {
            let nothing: Vec<String> = Vec::new();
            let none: Vec<String> = Vec::new();
            assert(nothing.deep_view() =~= Seq::<Seq<char>>::empty());
            assert(none.deep_view() =~= Seq::<Seq<char>>::empty());
            Ok((nothing, none))
        },
        Some((offset, size)) => {
            let dynamic = read_dynamic(file, header, offset, size);
            read_dynamic_strings(file, &dynamic, &segments.loads)
        },
    }
}

/// Read what an ELF file needs from its host.
pub fn parse_elf(file: &[u8], name: &str) -> (result: Result<Option<ParsedElf>>)
    ensures
        match result {
            Ok(elf) => elf_of(file@, name@) == Ok::<Option<ElfModel>, Seq<char>>(elf.deep_view()),
            Err(error) => elf_of(file@, name@) == Err::<Option<ElfModel>, Seq<char>>(error@),
        },
{
    if !is_elf(file) {
        return Ok(None);
    }
    let header = read_header(file, name)?;
    let segments = read_segments(file, &header, name)?;
    proof {
        lemma_dynamic_inside(file@, header, name@, header.program_count as nat);
    }
    let (needed, runtime_paths) = parse_dynamic(file, &header, &segments)?;
    Ok(
        Some(
            ParsedElf {
                class: header.class,
                little_endian: header.little_endian,
                machine: header.machine,
                interpreter: segments.interpreter,
                needed,
                runtime_paths,
            },
        ),
    )
}

} // verus!
