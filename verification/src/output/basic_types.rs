//! The basic types of a device description: constants, access rights and the
//! like.

use crate::text::chars_of;
use vstd::prelude::*;

verus! {

/// An enumerated value maps a number to a name.
#[derive(Debug, Eq, PartialEq, Clone)]
pub struct EnumeratedValue {
    /// The name that can stand in place of the value.
    pub name: String,
    /// A longer text on the value.
    pub description: String,
    /// The value that is named.
    pub value: EnumValue,
}

/// The value that an enumerated value names.
#[derive(Debug, Eq, PartialEq, Clone)]
pub enum EnumValue {
    /// Every value that is not named otherwise.
    Default,
    /// The value of the bit field.
    Value(SvdConstant),
}

/// A range of addresses that belongs to one peripheral alone.
#[derive(Debug, Eq, PartialEq, Clone)]
pub struct AddressBlock {
    /// The start of the block, from the base address of the peripheral.
    pub offset: SvdConstant,
    /// The number of address units in the block.
    pub size: SvdConstant,
    pub usage: AddressBlockUsage,
    pub protection: Option<Protection>,
}

/// What an address block is used for.
#[derive(Debug, Eq, PartialEq, Clone, Copy)]
pub enum AddressBlockUsage {
    Registers,
    Buffer,
    Reserved,
}

/// The access rights to a register or a field.
#[derive(Debug, Eq, PartialEq, Clone, Copy)]
pub enum AccessType {
    ReadOnly,
    WriteOnly,
    ReadWrite,
    WriteOnce,
    ReadWriteOnce,
}

/// What a write does to the bits of a field.
#[derive(Debug, Eq, PartialEq, Clone, Copy)]
pub enum ModifiedWriteValues {
    OneToClear,
    OneToSet,
    OneToToggle,
    ZeroToClear,
    ZeroToSet,
    ZeroToToggle,
    Clear,
    SetBits,
    Modify,
}

/// What a read does to a register besides reading it.
#[derive(Debug, Eq, PartialEq, Clone, Copy)]
pub enum ReadAction {
    Clear,
    SetBits,
    Modify,
    ModifyExternal,
}

/// Which values may be written.
#[derive(Debug, Eq, PartialEq, Clone)]
pub enum WriteConstraint {
    WriteAsRead,
    UseEnumeratedValues,
    Range { minimum: SvdConstant, maximum: SvdConstant },
}

/// Whether enumerated values describe what is read, what is written, or both.
#[derive(Debug, Eq, PartialEq, Clone, Copy)]
pub enum EnumeratedValuesUsage {
    Read,
    Write,
    ReadWrite,
}

/// The security level of an access.
#[derive(Debug, Eq, PartialEq, Clone, Copy)]
pub enum Protection {
    Secure,
    NonSecure,
    Priviledged,
}

/// The processor cores that a device can be built on.
#[derive(Debug, Eq, PartialEq, Clone, Copy)]
pub enum CpuNameType {
    CM0,
    CM0PLUS,
    CM1,
    SC000,
    CM23,
    CM3,
    CM33,
    CM35P,
    SC300,
    CM4,
    CM7,
    CA5,
    CA7,
    CA8,
    CA9,
    CA15,
    CA17,
    CA53,
    CA57,
    CA72,
    Other,
}

/// The byte order of a processor.
#[derive(Debug, Eq, PartialEq, Clone, Copy)]
#[allow(non_camel_case_types)]
pub enum EndianType {
    Little,
    Big,
    Selectable,
    other,
}

/// An interrupt of a peripheral.
#[derive(Debug, Eq, PartialEq, Clone)]
pub struct Interrupt {
    pub name: String,
    pub description: Option<String>,
    /// The number of the interrupt.
    pub value: SvdConstant,
}

/// Names for the members of an array of registers.
#[derive(Debug, Eq, PartialEq, Clone)]
pub struct DimArrayIndex {
    pub header_enum_name: Option<String>,
    pub enumerated_value: Vec<EnumeratedValue>,
}

/// The C type of a register.
#[derive(Debug, Eq, PartialEq, Clone, Copy)]
pub enum DataType {
    Uint8T,
    Uint16T,
    Uint32T,
    Uint64T,
    Int8T,
    Int16T,
    Int32T,
    Int64T,
    Uint8TPointer,
    Uint16TPointer,
    Uint32TPointer,
    Uint64TPointer,
    Int8TPointer,
    Int16TPointer,
    Int32TPointer,
    Int64TPointer,
}

/// A number of a device description.
#[derive(Clone, Copy, Debug, Eq, PartialEq, Structural)]
pub struct SvdConstant {
    pub value: u32,
}

/// Why a text is no number.
#[derive(Clone, Copy, Debug, Eq, PartialEq, Structural)]
pub enum ParseConstantError {
    /// There is nothing to read.
    Empty,
    /// A character is no digit of the base.
    InvalidDigit,
    /// The number does not fit into 32 bits.
    Overflow,
}

/// The value of `c` as a digit of the base `radix`, which is at most 16;
/// letters count in either case.
pub open spec fn radix_digit(c: char, radix: nat) -> Option<nat> {
    let value: int = if '0' <= c && c <= '9' {
        c as u32 - '0' as u32
    } else if 'a' <= c && c <= 'f' {
        c as u32 - 'a' as u32 + 10
    } else if 'A' <= c && c <= 'F' {
        c as u32 - 'A' as u32 + 10
    } else {
        16
    };
    if value < radix {
        Some(value as nat)
    } else {
        None
    }
}

/// The number that `digits` write in the base `radix`, read from the left:
/// reading stops at the first character that is no digit, and where the
/// number read so far no longer fits into 32 bits.
pub open spec fn radix_value(digits: Seq<char>, radix: nat) -> Result<nat, ParseConstantError>
    decreases digits.len(),
{
    if digits.len() == 0 {
        Ok(0)
    } else {
        match radix_value(digits.drop_last(), radix) {
            Err(e) => Err(e),
            Ok(before) => match radix_digit(digits.last(), radix) {
                None => Err(ParseConstantError::InvalidDigit),
                Some(d) => if before * radix + d > u32::MAX {
                    Err(ParseConstantError::Overflow)
                } else {
                    Ok(before * radix + d)
                },
            },
        }
    }
}

/// The number that `text` writes in the base `radix`: an optional `+`, then
/// at least one digit.
pub open spec fn parse_radix(text: Seq<char>, radix: nat) -> Result<nat, ParseConstantError> {
    if text.len() == 0 {
        Err(ParseConstantError::Empty)
    } else if text.len() == 1 && (text[0] == '+' || text[0] == '-') {
        Err(ParseConstantError::InvalidDigit)
    } else if text[0] == '+' {
        radix_value(text.subrange(1, text.len() as int), radix)
    } else {
        radix_value(text, radix)
    }
}

/// The number that `text` stands for: binary after `#`, hexadecimal after
/// `0x` or `0X`, and decimal otherwise.
pub open spec fn parse_constant(text: Seq<char>) -> Result<nat, ParseConstantError> {
    if text.len() >= 1 && text[0] == '#' {
        parse_radix(text.subrange(1, text.len() as int), 2)
    } else if text.len() >= 2 && text[0] == '0' && (text[1] == 'x' || text[1] == 'X') {
        parse_radix(text.subrange(2, text.len() as int), 16)
    } else {
        parse_radix(text, 10)
    }
}

/// Once reading has failed on the first digits, it fails in the same way on
/// all of them.
pub proof fn lemma_radix_error_is_final(digits: Seq<char>, radix: nat, n: int)
    requires
        0 <= n <= digits.len(),
    ensures
        radix_value(digits.take(n), radix) matches Err(e) ==> radix_value(digits, radix) == Err::<
            nat,
            ParseConstantError,
        >(e),
    decreases digits.len() - n,
{
    if n < digits.len() {
        if radix_value(digits.take(n), radix) is Err {
            assert(digits.take(n + 1).drop_last() =~= digits.take(n));
            lemma_radix_error_is_final(digits, radix, n + 1);
        }
    } else {
        assert(digits.take(n) =~= digits);
    }
}

/// Reads the digits `text[from..]` in the base `radix`.
pub fn read_radix(text: &Vec<char>, from: usize, radix: u32) -> (r: Result<u32, ParseConstantError>)
    requires
        from <= text.len(),
        2 <= radix <= 16,
    ensures
        match parse_radix(text@.subrange(from as int, text@.len() as int), radix as nat) {
            Ok(value) => r == Ok::<u32, ParseConstantError>(value as u32) && value <= u32::MAX,
            Err(e) => r == Err::<u32, ParseConstantError>(e),
        },
{
    let n = text.len();
    let ghost whole = text@.subrange(from as int, n as int);
    if from == n {
        return Err(ParseConstantError::Empty);
    }
    assert(whole[0] == text@[from as int]);
    if n - from == 1 && (text[from] == '+' || text[from] == '-') {
        return Err(ParseConstantError::InvalidDigit);
    }
    let start: usize = if text[from] == '+' {
        from + 1
    } else {
        from
    };
    let ghost digits = text@.subrange(start as int, n as int);
    proof {
        if start == from {
            assert(digits =~= whole);
        } else {
            assert(digits =~= whole.subrange(1, whole.len() as int));
        }
        assert(parse_radix(whole, radix as nat) == radix_value(digits, radix as nat));
    }
    let mut value: u32 = 0;
    let mut i: usize = start;
    while i < n
        invariant
            start <= i <= n,
            n == text.len(),
            2 <= radix <= 16,
            digits == text@.subrange(start as int, n as int),
            whole == text@.subrange(from as int, n as int),
            parse_radix(whole, radix as nat) == radix_value(digits, radix as nat),
            radix_value(digits.take(i - start), radix as nat) == Ok::<nat, ParseConstantError>(
                value as nat,
            ),
        decreases n - i,
    {
        let c = text[i];
        proof {
            assert(digits.take(i - start + 1).drop_last() =~= digits.take(i - start));
            assert(digits.take(i - start + 1).last() == c);
            lemma_radix_error_is_final(digits, radix as nat, i - start + 1);
        }
        let digit: u32 = if '0' <= c && c <= '9' {
            c as u32 - '0' as u32
        } else if 'a' <= c && c <= 'f' {
            c as u32 - 'a' as u32 + 10
        } else if 'A' <= c && c <= 'F' {
            c as u32 - 'A' as u32 + 10
        } else {
            16
        };
        if digit >= radix {
            return Err(ParseConstantError::InvalidDigit);
        }
        assert((value as u64) * (radix as u64) <= 0xFFFF_FFFFu64 * 16) by (nonlinear_arith)
            requires
                value <= 0xFFFF_FFFFu32,
                radix <= 16,
        ;
        let next: u64 = (value as u64) * (radix as u64) + (digit as u64);
        if next > 0xFFFF_FFFFu64 {
            return Err(ParseConstantError::Overflow);
        }
        value = next as u32;
        i += 1;
    }
    proof {
        assert(digits.take(digits.len() as int) =~= digits);
    }
    Ok(value)
}

impl SvdConstant {
    /// Reads a number: binary after `#`, hexadecimal after `0x` or `0X`, and
    /// decimal otherwise.
    pub fn from_string(value: String) -> (r: Result<SvdConstant, ParseConstantError>)
        ensures
            match parse_constant(value@) {
                Ok(number) => r == Ok::<SvdConstant, ParseConstantError>(
                    SvdConstant { value: number as u32 },
                ) && number <= u32::MAX,
                Err(e) => r == Err::<SvdConstant, ParseConstantError>(e),
            },
    {
        let chars = chars_of(value.as_str());
        let result = if chars.len() >= 1 && chars[0] == '#' {
            read_radix(&chars, 1, 2)
        } else if chars.len() >= 2 && chars[0] == '0' && (chars[1] == 'x' || chars[1] == 'X') {
            read_radix(&chars, 2, 16)
        } else {
            assert(chars@.subrange(0, chars@.len() as int) =~= chars@);
            read_radix(&chars, 0, 10)
        };
        match result {
            Ok(result) => Ok(SvdConstant { value: result }),
            Err(err) => Err(err),
        }
    }
}

} // verus!
