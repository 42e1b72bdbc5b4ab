//! What an artifact's own headers say about it: the machine it is for,
//! whether it names a loader, whether it still carries a symbol table, and
//! which libraries it links.
//!
//! The headers, not the strings: both readers walk the tables the format
//! defines and refuse a file whose tables they cannot walk, because
//! reporting a truncated file as static and stripped is exactly the wrong
//! way round.
use vstd::prelude::*;
use vstd::utf8::*;

use crate::text::{decimal, decimal_chars, extend, extend_str, string_of};

verus! {

/// What an ELF file's headers say.
#[derive(Clone, Copy, Debug, PartialEq, Eq)]
pub struct ElfShape {
    /// The machine it declares.
    pub machine: u16,
    /// Whether any program header names an interpreter, which a statically
    /// linked executable has none of.
    pub interpreted: bool,
    /// Whether any section is a symbol table, which a stripped one has none
    /// of.
    pub symbols: bool,
}

/// What a Mach-O file's header and load commands say.
#[derive(Clone, Debug, PartialEq, Eq)]
pub struct MachShape {
    /// The CPU type it declares.
    pub cpu: u32,
    /// Every library it names, which is its whole dynamic-link surface.
    pub linked: Vec<String>,
}

/// Why a file could not be read as the shape it was meant to be.
#[derive(Clone, Debug, PartialEq, Eq)]
pub enum ShapeError {
    /// It does not begin the way that format begins.
    NotTheFormat {
        /// What it was read as.
        format: &'static str,
    },
    /// It ends before something the format requires.
    Truncated {
        /// What was being read when it ran out.
        wanted: &'static str,
    },
    /// A table this must walk cannot be walked.
    Unwalkable {
        /// What was being walked.
        table: &'static str,
        /// What it said about itself.
        detail: String,
    },
}

/// The sentence a shape error is reported with.
pub open spec fn shape_message(error: ShapeError) -> Seq<char> {
    match error {
        ShapeError::NotTheFormat { format } => "not a "@ + format@ + " file"@,
        ShapeError::Truncated { wanted } => "it ends before "@ + wanted@,
        ShapeError::Unwalkable { table, detail } => "its "@ + table@ + " cannot be walked: "@
            + detail@,
    }
}

impl ShapeError {
    /// What went wrong, in a sentence.
    pub fn message(&self) -> (said: String)
        ensures
            said@ == shape_message(*self),
    {
        let mut held: Vec<char> = Vec::new();
        match self {
            ShapeError::NotTheFormat { format } => {
                extend_str(&mut held, "not a ");
                extend_str(&mut held, format);
                extend_str(&mut held, " file");
            },
            ShapeError::Truncated { wanted } => {
                extend_str(&mut held, "it ends before ");
                extend_str(&mut held, wanted);
            },
            ShapeError::Unwalkable { table, detail } => {
                extend_str(&mut held, "its ");
                extend_str(&mut held, table);
                extend_str(&mut held, " cannot be walked: ");
                extend_str(&mut held, detail.as_str());
            },
        }
        string_of(held.as_slice())
    }
}

/// Where the machine field is in an ELF header.
pub const MACHINE_AT: usize = 18;

/// Where the program header table's offset is.
pub const PROGRAM_HEADERS_AT: usize = 32;

/// Where the section header table's offset is.
pub const SECTION_HEADERS_AT: usize = 40;

/// Where the size of one program header entry is.
pub const PROGRAM_SIZE_AT: usize = 54;

/// Where the count of them is.
pub const PROGRAM_COUNT_AT: usize = 56;

/// Where the size of one section header entry is.
pub const SECTION_SIZE_AT: usize = 58;

/// Where the count of them is.
pub const SECTION_COUNT_AT: usize = 60;

/// Where a program header's type is.
pub const PROGRAM_KIND_AT: usize = 0;

/// Where a section header's type is. Not the same place: an ELF64 program
/// header carries its flags where a section header carries its type.
pub const SECTION_KIND_AT: usize = 4;

/// The program header type of an interpreter.
pub const PROGRAM_INTERPRETER: u32 = 3;

/// The section type of a symbol table.
pub const SECTION_SYMBOLS: u32 = 2;

/// What a 64-bit Mach-O file begins with, little-endian.
pub const MACH_MAGIC: u32 = 0xfeed_facf;

/// Where a Mach-O header's CPU type is.
pub const CPU_AT: usize = 4;

/// Where the count of load commands is.
pub const COMMAND_COUNT_AT: usize = 16;

/// How long a 64-bit Mach-O header is, and so where its load commands start.
pub const COMMANDS_AT: usize = 32;

/// Where a load command's length is, in every load command.
pub const COMMAND_SIZE_AT: usize = 4;

/// Where, within a library command, the offset of its name is.
pub const NAME_OFFSET_AT: usize = 8;

/// The load command that names a library the file needs at run time.
pub const LOAD_DYLIB: u32 = 0x0000_000c;

/// The load command of a weak dependency.
pub const LOAD_WEAK_DYLIB: u32 = 0x8000_0018;

/// The load command of a re-export.
pub const REEXPORT_DYLIB: u32 = 0x8000_001f;

/// How many bytes a half is.
pub const HALF_LENGTH: usize = 2;

/// How many bytes a word is.
pub const WORD_LENGTH: usize = 4;

/// How many bytes an offset is.
pub const OFFSET_LENGTH: usize = 8;

/// The little-endian value of `length` bytes starting at `at`.
pub open spec fn little_endian(bytes: Seq<u8>, at: int, length: nat) -> nat
    decreases length,
{
    if length == 0 {
        0
    } else {
        bytes[at] as nat + 256 * little_endian(bytes, at + 1, (length - 1) as nat)
    }
}

/// Two hundred and fifty-six to a power.
pub open spec fn power_256(exponent: nat) -> nat
    decreases exponent,
{
    if exponent == 0 {
        1
    } else {
        256 * power_256((exponent - 1) as nat)
    }
}

/// A little-endian value of `length` bytes is below `256` to that power.
pub proof fn lemma_little_endian_bound(bytes: Seq<u8>, at: int, length: nat)
    ensures
        little_endian(bytes, at, length) < power_256(length),
    decreases length,
{
    if length > 0 {
        lemma_little_endian_bound(bytes, at + 1, (length - 1) as nat);
        let rest = little_endian(bytes, at + 1, (length - 1) as nat);
        let byte = bytes[at] as nat;
        assert(byte + 256 * rest < 256 * power_256((length - 1) as nat)) by (nonlinear_arith)
            requires
                byte < 256,
                rest < power_256((length - 1) as nat),
        ;
    }
}

/// The little-endian value at `at`, if the bytes reach that far.
pub open spec fn read_value(bytes: Seq<u8>, at: int, length: nat) -> Option<nat> {
    if at + length <= bytes.len() {
        Some(little_endian(bytes, at, length))
    } else {
        None
    }
}

/// A little-endian value of up to eight bytes at `at`, if the bytes reach
/// that far.
fn read_le(bytes: &[u8], at: usize, length: usize) -> (value: Option<u64>)
    requires
        length <= 8,
    ensures
        match read_value(bytes@, at as int, length as nat) {
            Some(found) => value == Some(found as u64) && found <= u64::MAX,
            None => value is None,
        },
{
    if at > bytes.len() || length > bytes.len() - at {
        return None;
    }
    let mut total: u64 = 0;
    let mut index: usize = length;
    proof {
        assert(power_256(0) == 1);
        assert(power_256(1) == 256);
        assert(power_256(2) == 65536);
        assert(power_256(3) == 16777216);
        assert(power_256(4) == 4294967296);
        assert(power_256(5) == 1099511627776);
        assert(power_256(6) == 281474976710656);
        assert(power_256(7) == 72057594037927936);
        assert(power_256(8) == 18446744073709551616);
    }
    while index > 0
        invariant
            index <= length <= 8,
            at + length <= bytes@.len(),
            bytes@.len() == bytes.len(),
            total as nat == little_endian(bytes@, at + index, (length - index) as nat),
            power_256(8) == 18446744073709551616,
            power_256((length - index) as nat) <= power_256((8 - index) as nat),
        decreases index,
    {
        proof {
            lemma_little_endian_bound(bytes@, at + index, (length - index) as nat);
            lemma_power_monotone((length - index + 1) as nat, (8 - index + 1) as nat);
            lemma_power_monotone((8 - index + 1) as nat, 8);
        }
        let byte = bytes[at + index - 1] as u64;
        assert(byte + 256 * total < power_256((length - index + 1) as nat)) by (nonlinear_arith)
            requires
                byte < 256,
                total < power_256((length - index) as nat),
                power_256((length - index + 1) as nat) == 256 * power_256(
                    (length - index) as nat,
                ),
        ;
        total = byte + 256 * total;
        index = index - 1;
    }
    Some(total)
}

/// Powers of two hundred and fifty-six grow with the exponent.
pub proof fn lemma_power_monotone(small: nat, large: nat)
    requires
        small <= large,
    ensures
        power_256(small) <= power_256(large),
    decreases large,
{
    if small < large {
        lemma_power_monotone(small, (large - 1) as nat);
    }
}

/// A little-endian half at `at`, if the bytes reach that far.
fn half(bytes: &[u8], at: usize) -> (value: Option<u16>)
    ensures
        match read_value(bytes@, at as int, 2) {
            Some(found) => value == Some(found as u16) && found < 65536,
            None => value is None,
        },
{
    proof {
        lemma_little_endian_bound(bytes@, at as int, 2);
        reveal_with_fuel(power_256, 3);
    }
    match read_le(bytes, at, HALF_LENGTH) {
        Some(found) => Some(found as u16),
        None => None,
    }
}

/// A little-endian word at `at`, if the bytes reach that far.
fn word(bytes: &[u8], at: usize) -> (value: Option<u32>)
    ensures
        match read_value(bytes@, at as int, 4) {
            Some(found) => value == Some(found as u32) && found < 4294967296,
            None => value is None,
        },
{
    proof {
        lemma_little_endian_bound(bytes@, at as int, 4);
        reveal_with_fuel(power_256, 5);
    }
    match read_le(bytes, at, WORD_LENGTH) {
        Some(found) => Some(found as u32),
        None => None,
    }
}

/// A little-endian offset at `at`, if the bytes reach that far and it fits
/// an address.
pub open spec fn offset_value(bytes: Seq<u8>, at: int) -> Option<usize> {
    match read_value(bytes, at, 8) {
        Some(found) => if found <= usize::MAX {
            Some(found as usize)
        } else {
            None
        },
        None => None,
    }
}

/// A little-endian offset at `at`, if the bytes reach that far and it fits
/// an address.
fn offset(bytes: &[u8], at: usize) -> (value: Option<usize>)
    ensures
        value == offset_value(bytes@, at as int),
{
    match read_le(bytes, at, OFFSET_LENGTH) {
        Some(found) => if found <= usize::MAX as u64 {
            Some(found as usize)
        } else {
            None
        },
        None => None,
    }
}

/// What a run of bytes reads as, with every sequence that is not UTF-8
/// replaced: `String::from_utf8_lossy`.
pub uninterp spec fn lossy(bytes: Seq<u8>) -> Seq<char>;

/// `String::from_utf8_lossy`: the text the bytes are, which is exactly their
/// decoding when they are valid UTF-8; what it makes of other bytes is named
/// rather than stated.
#[verifier::external_body]
fn lossy_text(bytes: &[u8]) -> (text: String)
    ensures
        text@ == lossy(bytes@),
        valid_utf8(bytes@) ==> text@ == decode_utf8(bytes@),
{
    String::from_utf8_lossy(bytes).into_owned()
}

/// The nul-terminated name at `at`: the bytes from `at` to the first nul,
/// when there is one.
pub open spec fn name_bytes(bytes: Seq<u8>, at: int) -> Option<Seq<u8>> {
    if at > bytes.len() {
        None
    } else {
        let rest = bytes.subrange(at, bytes.len() as int);
        if exists|index: int| 0 <= index < rest.len() && rest[index] == 0 {
            let end = choose|index: int|
                0 <= index < rest.len() && rest[index] == 0 && forall|before: int|
                    0 <= before < index ==> rest[before] != 0;
            Some(rest.subrange(0, end))
        } else {
            None
        }
    }
}

/// The nul-terminated name at `at`, if there is one and it is terminated.
///
/// A run of bytes to the end is not a name: a file that stopped mid-string is
/// truncated.
fn name(bytes: &[u8], at: usize) -> (named: Option<String>)
    ensures
        match name_bytes(bytes@, at as int) {
            Some(held) => named matches Some(text) && text@ == lossy(held),
            None => named is None,
        },
{
    if at > bytes.len() {
        return None;
    }
    let ghost rest = bytes@.subrange(at as int, bytes@.len() as int);
    let mut index = at;
    while index < bytes.len()
        invariant
            at <= index <= bytes@.len(),
            rest == bytes@.subrange(at as int, bytes@.len() as int),
            forall|before: int| 0 <= before < index - at ==> rest[before] != 0,
        decreases bytes@.len() - index,
    {
        if bytes[index] == 0 {
            let ghost end = index - at;
            assert(0 <= end < rest.len() && rest[end] == 0);
            let ghost chosen = choose|found: int|
                0 <= found < rest.len() && rest[found] == 0 && forall|before: int|
                    0 <= before < found ==> rest[before] != 0;
            assert(chosen == end) by {
                if chosen < end {
                    assert(rest[chosen] != 0);
                } else if chosen > end {
                    assert(rest[end] != 0);
                }
            }
            let piece = crate::text::copy_bytes(bytes, at, index);
            assert(piece@ =~= rest.subrange(0, end));
            return Some(lossy_text(piece.as_slice()));
        }
        index = index + 1;
    }
    None
}

/// Why walking a table stopped.
pub enum WalkFailure {
    /// The table declares no entries, or entries of no length.
    Empty,
    /// An entry lies beyond what can be addressed.
    Unaddressable,
    /// An entry lies past the end of the file.
    PastTheEnd { index: nat },
}

/// Where an entry of a table is: `at` plus `index` strides, the product
/// held at the largest address; `None` when the sum cannot be addressed.
pub open spec fn entry_at(at: usize, index: nat, stride: usize) -> Option<usize> {
    let product: int = if index * stride > usize::MAX {
        usize::MAX as int
    } else {
        index * stride
    };
    if at + product > usize::MAX {
        None
    } else {
        Some((at + product) as usize)
    }
}

/// A sum held at the largest address.
pub open spec fn saturating_sum(left: usize, right: usize) -> usize {
    if left + right > usize::MAX {
        usize::MAX
    } else {
        (left + right) as usize
    }
}

/// Walking the first `walked` entries of a table: whether one declared
/// `kind`, or why the walk stopped.
pub open spec fn walk(
    bytes: Seq<u8>,
    at: usize,
    stride: usize,
    walked: nat,
    kind_at: usize,
    kind: u32,
) -> Result<bool, WalkFailure>
    decreases walked,
{
    if walked == 0 {
        Ok(false)
    } else {
        match walk(bytes, at, stride, (walked - 1) as nat, kind_at, kind) {
            Err(failure) => Err(failure),
            Ok(found) => match entry_at(at, (walked - 1) as nat, stride) {
                None => Err(WalkFailure::Unaddressable),
                Some(entry) => match read_value(bytes, saturating_sum(entry, kind_at) as int, 4) {
                    None => Err(WalkFailure::PastTheEnd { index: (walked - 1) as nat }),
                    Some(declared) => Ok(found || declared == kind),
                },
            },
        }
    }
}

/// A walk that stopped stays stopped for the same reason, however many more
/// entries the table declares.
pub proof fn lemma_walk_stays_stopped(
    bytes: Seq<u8>,
    at: usize,
    stride: usize,
    stopped: nat,
    walked: nat,
    kind_at: usize,
    kind: u32,
)
    requires
        stopped <= walked,
        walk(bytes, at, stride, stopped, kind_at, kind) is Err,
    ensures
        walk(bytes, at, stride, walked, kind_at, kind) == walk(
            bytes,
            at,
            stride,
            stopped,
            kind_at,
            kind,
        ),
    decreases walked,
{
    if stopped < walked {
        lemma_walk_stays_stopped(bytes, at, stride, stopped, (walked - 1) as nat, kind_at, kind);
    }
}

/// Whether any entry of a table declares `kind`, or why the table cannot be
/// walked.
pub open spec fn declared(
    bytes: Seq<u8>,
    at: usize,
    stride: usize,
    count: usize,
    kind_at: usize,
    kind: u32,
) -> Result<bool, WalkFailure> {
    if stride == 0 || count == 0 {
        Err(WalkFailure::Empty)
    } else {
        walk(bytes, at, stride, count as nat, kind_at, kind)
    }
}

/// The detail an unwalkable table is reported with.
pub open spec fn walk_detail(failure: WalkFailure, stride: usize, count: usize) -> Seq<char> {
    match failure {
        WalkFailure::Empty => decimal(count as nat) + " entries of "@ + decimal(stride as nat)
            + " bytes"@,
        WalkFailure::Unaddressable => "it runs past what can be addressed"@,
        WalkFailure::PastTheEnd { index } => "entry "@ + decimal(index) + " is past the end of the file"@,
    }
}

/// The error a walk that stopped is reported with.
pub open spec fn walk_error(
    table: &'static str,
    failure: WalkFailure,
    stride: usize,
    count: usize,
    error: ShapeError,
) -> bool {
    error matches ShapeError::Unwalkable { table: named, detail } && named@ == table@ && detail@
        == walk_detail(failure, stride, count)
}

/// An unwalkable-table error naming the table and carrying the detail.
fn unwalkable(table: &'static str, detail: Vec<char>) -> (error: ShapeError)
    ensures
        error matches ShapeError::Unwalkable { table: named, detail: told } && named == table
            && told@ == detail@,
{
    ShapeError::Unwalkable { table, detail: string_of(detail.as_slice()) }
}

/// Whether any entry of a header table declares `kind`.
///
/// A table this cannot walk — no entries, entries of no length, or a header
/// past the end — is an error rather than an answer of `false`.
fn declares(
    bytes: &[u8],
    table: &'static str,
    at: usize,
    stride: usize,
    count: usize,
    kind_at: usize,
    kind: u32,
) -> (found: Result<bool, ShapeError>)
    ensures
        match declared(bytes@, at, stride, count, kind_at, kind) {
            Ok(answer) => found == Ok::<bool, ShapeError>(answer),
            Err(failure) => found matches Err(error) && walk_error(
                table,
                failure,
                stride,
                count,
                error,
            ),
        },
{
    if stride == 0 || count == 0 {
        let mut detail: Vec<char> = Vec::new();
        let shown = decimal_chars(count as u64);
        extend(&mut detail, shown.as_slice());
        extend_str(&mut detail, " entries of ");
        let shown = decimal_chars(stride as u64);
        extend(&mut detail, shown.as_slice());
        extend_str(&mut detail, " bytes");
        return Err(unwalkable(table, detail));
    }
    let mut found = false;
    let mut index: usize = 0;
    while index < count
        invariant
            index <= count,
            stride > 0,
            walk(bytes@, at, stride, index as nat, kind_at, kind) == Ok::<bool, WalkFailure>(found),
        decreases count - index,
    {
        let product = match index.checked_mul(stride) {
            Some(held) => held,
            None => usize::MAX,
        };
        let entry = match at.checked_add(product) {
            Some(held) => held,
            None => {
                proof {
                    lemma_walk_stays_stopped(
                        bytes@,
                        at,
                        stride,
                        (index + 1) as nat,
                        count as nat,
                        kind_at,
                        kind,
                    );
                    reveal_strlit("it runs past what can be addressed");
                }
                let mut detail: Vec<char> = Vec::new();
                extend_str(&mut detail, "it runs past what can be addressed");
                return Err(unwalkable(table, detail));
            },
        };
        let kind_place = match entry.checked_add(kind_at) {
            Some(held) => held,
            None => usize::MAX,
        };
        let declared = match word(bytes, kind_place) {
            Some(held) => held,
            None => {
                proof {
                    lemma_walk_stays_stopped(
                        bytes@,
                        at,
                        stride,
                        (index + 1) as nat,
                        count as nat,
                        kind_at,
                        kind,
                    );
                }
                let mut detail: Vec<char> = Vec::new();
                extend_str(&mut detail, "entry ");
                let shown = decimal_chars(index as u64);
                extend(&mut detail, shown.as_slice());
                extend_str(&mut detail, " is past the end of the file");
                return Err(unwalkable(table, detail));
            },
        };
        found = found || declared == kind;
        index = index + 1;
    }
    Ok(found)
}

/// The shape an ELF file's headers give, or why they give none.
pub open spec fn elf_reading(bytes: Seq<u8>) -> Result<(u16, bool, bool), ElfFailure> {
    if bytes.len() < 4 || bytes[0] != 0x7f || bytes[1] != 0x45 || bytes[2] != 0x4c || bytes[3]
        != 0x46 {
        Err(ElfFailure::NotElf)
    } else {
        match read_value(bytes, MACHINE_AT as int, 2) {
            None => Err(ElfFailure::Truncated { wanted: 0 }),
            Some(machine) => match offset_value(bytes, PROGRAM_HEADERS_AT as int) {
                None => Err(ElfFailure::Truncated { wanted: 1 }),
                Some(programs) => match declared(
                    bytes,
                    programs,
                    table_field(bytes, PROGRAM_SIZE_AT),
                    table_field(bytes, PROGRAM_COUNT_AT),
                    PROGRAM_KIND_AT,
                    PROGRAM_INTERPRETER,
                ) {
                    Err(failure) => Err(ElfFailure::Walk { section: false, failure }),
                    Ok(interpreted) => match offset_value(bytes, SECTION_HEADERS_AT as int) {
                        None => Err(ElfFailure::Truncated { wanted: 2 }),
                        Some(sections) => match declared(
                            bytes,
                            sections,
                            table_field(bytes, SECTION_SIZE_AT),
                            table_field(bytes, SECTION_COUNT_AT),
                            SECTION_KIND_AT,
                            SECTION_SYMBOLS,
                        ) {
                            Err(failure) => Err(ElfFailure::Walk { section: true, failure }),
                            Ok(symbols) => Ok((machine as u16, interpreted, symbols)),
                        },
                    },
                },
            },
        }
    }
}

/// A half-width table field as a count or size, zero when it is absent.
pub open spec fn table_field(bytes: Seq<u8>, at: usize) -> usize {
    match read_value(bytes, at as int, 2) {
        Some(found) => found as usize,
        None => 0,
    }
}

/// Why an ELF file gives no shape.
pub enum ElfFailure {
    /// It does not begin with the ELF magic.
    NotElf,
    /// It ends before its machine (0), its program headers (1) or its
    /// section headers (2).
    Truncated { wanted: nat },
    /// The program (or, when `section`, the section) header table cannot be
    /// walked.
    Walk { section: bool, failure: WalkFailure },
}

/// The error an ELF file that gives no shape is reported with.
pub open spec fn elf_error(failure: ElfFailure, bytes: Seq<u8>, error: ShapeError) -> bool {
    match failure {
        ElfFailure::NotElf => error matches ShapeError::NotTheFormat { format } && format@
            == "an ELF"@,
        ElfFailure::Truncated { wanted } => error matches ShapeError::Truncated { wanted: said }
            && said@ == (if wanted == 0 {
            "its machine"@
        } else if wanted == 1 {
            "its program headers"@
        } else {
            "its section headers"@
        }),
        ElfFailure::Walk { section, failure } => if section {
            walk_error(
                "section header table",
                failure,
                table_field(bytes, SECTION_SIZE_AT),
                table_field(bytes, SECTION_COUNT_AT),
                error,
            )
        } else {
            walk_error(
                "program header table",
                failure,
                table_field(bytes, PROGRAM_SIZE_AT),
                table_field(bytes, PROGRAM_COUNT_AT),
                error,
            )
        },
    }
}

/// A half-width table field as a count or size, zero when it is absent.
fn field(bytes: &[u8], at: usize) -> (value: usize)
    ensures
        value == table_field(bytes@, at),
{
    match half(bytes, at) {
        Some(found) => found as usize,
        None => 0,
    }
}

/// What an ELF file's own headers say: its machine, whether any program
/// header names an interpreter, and whether any section is a symbol table.
///
/// [`ShapeError`] when the bytes are not an ELF file, end before a field, or
/// carry a header table that cannot be walked.
pub fn elf_shape(bytes: &[u8]) -> (shape: Result<ElfShape, ShapeError>)
    ensures
        match elf_reading(bytes@) {
            Ok((machine, interpreted, symbols)) => shape == Ok::<ElfShape, ShapeError>(
                ElfShape { machine, interpreted, symbols },
            ),
            Err(failure) => shape matches Err(error) && elf_error(failure, bytes@, error),
        },
{
    proof {
        reveal_strlit("an ELF");
        reveal_strlit("its machine");
        reveal_strlit("its program headers");
        reveal_strlit("its section headers");
        reveal_strlit("program header table");
        reveal_strlit("section header table");
    }
    if bytes.len() < 4 || bytes[0] != 0x7f || bytes[1] != 0x45 || bytes[2] != 0x4c || bytes[3]
        != 0x46 {
        return Err(ShapeError::NotTheFormat { format: "an ELF" });
    }
    let machine = match half(bytes, MACHINE_AT) {
        Some(found) => found,
        None => return Err(ShapeError::Truncated { wanted: "its machine" }),
    };
    let programs = match offset(bytes, PROGRAM_HEADERS_AT) {
        Some(found) => found,
        None => return Err(ShapeError::Truncated { wanted: "its program headers" }),
    };
    let interpreted = declares(
        bytes,
        "program header table",
        programs,
        field(bytes, PROGRAM_SIZE_AT),
        field(bytes, PROGRAM_COUNT_AT),
        PROGRAM_KIND_AT,
        PROGRAM_INTERPRETER,
    )?;
    let sections = match offset(bytes, SECTION_HEADERS_AT) {
        Some(found) => found,
        None => return Err(ShapeError::Truncated { wanted: "its section headers" }),
    };
    let symbols = declares(
        bytes,
        "section header table",
        sections,
        field(bytes, SECTION_SIZE_AT),
        field(bytes, SECTION_COUNT_AT),
        SECTION_KIND_AT,
        SECTION_SYMBOLS,
    )?;
    Ok(ElfShape { machine, interpreted, symbols })
}

/// Why a load command cannot be walked.
pub enum CommandFailure {
    /// It begins past the end of the file.
    BeginsPast,
    /// It declares no length.
    NoLength,
    /// It is a library command whose name lies nowhere.
    NamesNothing,
    /// Its name runs to the end of the file.
    Unterminated,
}

/// Whether a load command is one of the three that name a library.
pub open spec fn names_library(kind: nat) -> bool {
    kind == LOAD_DYLIB || kind == LOAD_WEAK_DYLIB || kind == REEXPORT_DYLIB
}

/// The libraries named by the load commands from the `index`th, the first
/// of them at `at`, up to `count` of them; or the command that cannot be
/// walked and why.
pub open spec fn command_walk(bytes: Seq<u8>, at: usize, index: nat, count: nat) -> Result<
    Seq<Seq<char>>,
    (nat, CommandFailure),
>
    decreases count - index,
{
    if index >= count {
        Ok(seq![])
    } else {
        match read_value(bytes, at as int, 4) {
            None => Err((index, CommandFailure::BeginsPast)),
            Some(kind) => match read_value(bytes, saturating_sum(at, COMMAND_SIZE_AT) as int, 4) {
                None => Err((index, CommandFailure::NoLength)),
                Some(size) => if size == 0 {
                    Err((index, CommandFailure::NoLength))
                } else {
                    let next = saturating_sum(at, size as usize);
                    if names_library(kind) {
                        match read_value(bytes, saturating_sum(at, NAME_OFFSET_AT) as int, 4) {
                            None => Err((index, CommandFailure::NamesNothing)),
                            Some(place) => if at + place > usize::MAX {
                                Err((index, CommandFailure::NamesNothing))
                            } else {
                                match name_bytes(bytes, at + place) {
                                    None => Err((index, CommandFailure::Unterminated)),
                                    Some(named) => match command_walk(
                                        bytes,
                                        next,
                                        index + 1,
                                        count,
                                    ) {
                                        Ok(rest) => Ok(seq![lossy(named)] + rest),
                                        Err(failure) => Err(failure),
                                    },
                                }
                            },
                        }
                    } else {
                        command_walk(bytes, next, index + 1, count)
                    }
                },
            },
        }
    }
}

/// Why a Mach-O file gives no shape.
pub enum MachFailure {
    /// It does not begin with the 64-bit Mach-O magic.
    NotMach,
    /// It ends before its CPU type.
    NoCpu,
    /// It ends before its command count.
    NoCount,
    /// A load command cannot be walked.
    Command { index: nat, failure: CommandFailure },
}

/// The shape a Mach-O file's header and load commands give, or why they
/// give none.
pub open spec fn mach_reading(bytes: Seq<u8>) -> Result<(u32, Seq<Seq<char>>), MachFailure> {
    if read_value(bytes, 0, 4) != Some(MACH_MAGIC as nat) {
        Err(MachFailure::NotMach)
    } else {
        match read_value(bytes, CPU_AT as int, 4) {
            None => Err(MachFailure::NoCpu),
            Some(cpu) => match read_value(bytes, COMMAND_COUNT_AT as int, 4) {
                None => Err(MachFailure::NoCount),
                Some(count) => match command_walk(bytes, COMMANDS_AT, 0, count) {
                    Ok(linked) => Ok((cpu as u32, linked)),
                    Err((index, failure)) => Err(MachFailure::Command { index, failure }),
                },
            },
        }
    }
}

/// The detail a load command that cannot be walked is reported with.
pub open spec fn command_detail(index: nat, failure: CommandFailure) -> Seq<char> {
    match failure {
        CommandFailure::BeginsPast => "command "@ + decimal(index) + " begins past the end"@,
        CommandFailure::NoLength => "command "@ + decimal(index) + " declares no length"@,
        CommandFailure::NamesNothing => "command "@ + decimal(index) + " names nothing"@,
        CommandFailure::Unterminated => "command "@ + decimal(index) + "'s name is unterminated"@,
    }
}

/// The error a Mach-O file that gives no shape is reported with.
pub open spec fn mach_error(failure: MachFailure, error: ShapeError) -> bool {
    match failure {
        MachFailure::NotMach => error matches ShapeError::NotTheFormat { format } && format@
            == "a 64-bit Mach-O"@,
        MachFailure::NoCpu => error matches ShapeError::Truncated { wanted } && wanted@
            == "its CPU type"@,
        MachFailure::NoCount => error matches ShapeError::Truncated { wanted } && wanted@
            == "its command count"@,
        MachFailure::Command { index, failure } => error matches ShapeError::Unwalkable {
            table,
            detail,
        } && table@ == "load commands"@ && detail@ == command_detail(index, failure),
    }
}

/// The error for a load command that cannot be walked.
fn command_error(index: u32, what: &str) -> (error: ShapeError)
    ensures
        error matches ShapeError::Unwalkable { table, detail } && table@ == "load commands"@
            && detail@ == "command "@ + decimal(index as nat) + what@,
{
    let mut detail: Vec<char> = Vec::new();
    extend_str(&mut detail, "command ");
    let shown = decimal_chars(index as u64);
    extend(&mut detail, shown.as_slice());
    extend_str(&mut detail, what);
    ShapeError::Unwalkable { table: "load commands", detail: string_of(detail.as_slice()) }
}

/// One load command: the library it names, if it names one, and where the
/// next command begins; or why it cannot be walked.
fn command_step(bytes: &[u8], at: usize, index: u32, count: u32) -> (step: Result<
    (Option<String>, usize),
    ShapeError,
>)
    requires
        index < count,
    ensures
        match step {
            Ok((named, next)) => match named {
                Some(text) => command_walk(bytes@, at, index as nat, count as nat) == match command_walk(
                    bytes@,
                    next,
                    (index + 1) as nat,
                    count as nat,
                ) {
                    Ok(rest) => Ok::<Seq<Seq<char>>, (nat, CommandFailure)>(seq![text@] + rest),
                    Err(failure) => Err(failure),
                },
                None => command_walk(bytes@, at, index as nat, count as nat) == command_walk(
                    bytes@,
                    next,
                    (index + 1) as nat,
                    count as nat,
                ),
            },
            Err(error) => command_walk(bytes@, at, index as nat, count as nat) matches Err(
                (stopped, failure),
            ) && stopped == index && mach_error(MachFailure::Command { index: stopped, failure }, error),
        },
{
    proof {
        reveal_strlit("load commands");
        reveal_strlit(" begins past the end");
        reveal_strlit(" declares no length");
        reveal_strlit(" names nothing");
        reveal_strlit("'s name is unterminated");
    }
    let kind = match word(bytes, at) {
        Some(found) => found,
        None => return Err(command_error(index, " begins past the end")),
    };
    let size_place = match at.checked_add(COMMAND_SIZE_AT) {
        Some(held) => held,
        None => usize::MAX,
    };
    let size = match word(bytes, size_place) {
        Some(found) => found,
        None => return Err(command_error(index, " declares no length")),
    };
    if size == 0 {
        return Err(command_error(index, " declares no length"));
    }
    let next = match at.checked_add(size as usize) {
        Some(held) => held,
        None => usize::MAX,
    };
    if kind == LOAD_DYLIB || kind == LOAD_WEAK_DYLIB || kind == REEXPORT_DYLIB {
        let offset_place = match at.checked_add(NAME_OFFSET_AT) {
            Some(held) => held,
            None => usize::MAX,
        };
        let place = match word(bytes, offset_place) {
            Some(found) => found,
            None => return Err(command_error(index, " names nothing")),
        };
        let named_at = match at.checked_add(place as usize) {
            Some(held) => held,
            None => return Err(command_error(index, " names nothing")),
        };
        let named = match name(bytes, named_at) {
            Some(held) => held,
            None => return Err(command_error(index, "'s name is unterminated")),
        };
        Ok((Some(named), next))
    } else {
        Ok((None, next))
    }
}

/// What a 64-bit Mach-O file's header and load commands say: its CPU type
/// and every library it names, in the order its commands name them.
///
/// [`ShapeError`] when the bytes are not a 64-bit Mach-O file, end before a
/// field, or carry load commands that run past their end.
pub fn mach_shape(bytes: &[u8]) -> (shape: Result<MachShape, ShapeError>)
    ensures
        match mach_reading(bytes@) {
            Ok((cpu, linked)) => shape matches Ok(held) && held.cpu == cpu
                && held.linked@.map_values(|named: String| named@) == linked,
            Err(failure) => shape matches Err(error) && mach_error(failure, error),
        },
{
    if word(bytes, 0) != Some(MACH_MAGIC) {
        return Err(ShapeError::NotTheFormat { format: "a 64-bit Mach-O" });
    }
    let cpu = match word(bytes, CPU_AT) {
        Some(found) => found,
        None => return Err(ShapeError::Truncated { wanted: "its CPU type" }),
    };
    let count = match word(bytes, COMMAND_COUNT_AT) {
        Some(found) => found,
        None => return Err(ShapeError::Truncated { wanted: "its command count" }),
    };
    let mut linked: Vec<String> = Vec::new();
    let mut at: usize = COMMANDS_AT;
    let mut index: u32 = 0;
    assert(linked@.map_values(|named: String| named@) + command_walk(bytes@, at, 0, count as nat)->Ok_0 =~= command_walk(bytes@, at, 0, count as nat)->Ok_0);
    while index < count
        invariant
            index <= count,
            read_value(bytes@, 0, 4) == Some(MACH_MAGIC as nat),
            read_value(bytes@, CPU_AT as int, 4) == Some(cpu as nat),
            read_value(bytes@, COMMAND_COUNT_AT as int, 4) == Some(count as nat),
            match command_walk(bytes@, at, index as nat, count as nat) {
                Ok(rest) => command_walk(bytes@, COMMANDS_AT, 0, count as nat) == Ok::<
                    Seq<Seq<char>>,
                    (nat, CommandFailure),
                >(linked@.map_values(|named: String| named@) + rest),
                Err(failure) => command_walk(bytes@, COMMANDS_AT, 0, count as nat) == Err::<
                    Seq<Seq<char>>,
                    (nat, CommandFailure),
                >(failure),
            },
        decreases count - index,
    {
        let (named, next) = command_step(bytes, at, index, count)?;
        match named {
            Some(text) => {
                let ghost before = linked@.map_values(|named: String| named@);
                linked.push(text);
                assert(linked@.map_values(|named: String| named@) =~= before.push(text@));
                proof {
                    match command_walk(bytes@, next, index as nat + 1, count as nat) {
                        Ok(rest) => {
                            assert(before + (seq![text@] + rest) =~= before.push(text@) + rest);
                        },
                        Err(failure) => {},
                    }
                }
            },
            None => {},
        }
        at = next;
        index = index + 1;
    }
    assert(linked@.map_values(|named: String| named@) + seq![] =~= linked@.map_values(
        |named: String| named@,
    ));
    Ok(MachShape { cpu, linked })
}

} // verus!
