//! What the descriptions of a device and the patches on them have in common.

use crate::error::PatchError;
use crate::output::basic_types::parse_radix;
use crate::output::basic_types::read_radix;
use crate::output::basic_types::ParseConstantError;
use crate::patch_structure::regex::anchored;
use crate::patch_structure::regex::regex_compiles;
use crate::patch_structure::regex::Regex;
use crate::text::chars_of;
use crate::text::push_char;
use vstd::prelude::*;

verus! {

/// Numbers as hexadecimal text.
pub struct HexSerde;

/// The hexadecimal digit whose value is `d`, in upper case.
pub open spec fn hex_digit(d: nat) -> char
    recommends
        d < 16,
{
    if d < 10 {
        (d + '0' as u32) as char
    } else {
        (d - 10 + 'A' as u32) as char
    }
}

/// The shortest hexadecimal numeral of `n`, in upper case.
pub open spec fn render_hex(n: nat) -> Seq<char>
    decreases n,
{
    if n < 16 {
        seq![hex_digit(n)]
    } else {
        render_hex(n / 16).push(hex_digit(n % 16))
    }
}

/// The number that `text` stands for: hexadecimal after `0x` or `0X`, and
/// decimal otherwise.
pub open spec fn parse_hex_or_decimal(text: Seq<char>) -> Result<nat, ParseConstantError> {
    if text.len() >= 2 && text[0] == '0' && (text[1] == 'x' || text[1] == 'X') {
        parse_radix(text.subrange(2, text.len() as int), 16)
    } else {
        parse_radix(text, 10)
    }
}

impl HexSerde {
    /// Writes a number as `0x` and its hexadecimal digits in upper case.
    pub fn serialize(x: &u32) -> (s: String)
        ensures
            s@ == seq!['0', 'x'] + render_hex(*x as nat),
    {
        let mut digits: Vec<char> = Vec::new();
        let mut rest: u32 = *x;
        while rest >= 16
            invariant
                render_hex(*x as nat) == render_hex(rest as nat) + digits@.reverse(),
            decreases rest,
        {
            let d: u8 = (rest % 16) as u8;
            let c: char = if d < 10 {
                (d + 48u8) as char
            } else {
                (d - 10 + 65u8) as char
            };
            proof {
                assert(c == hex_digit((rest % 16) as nat));
                assert(render_hex(rest as nat) == render_hex((rest / 16) as nat).push(c));
                assert(digits@.push(c).reverse() =~= seq![c] + digits@.reverse());
                assert(render_hex((rest / 16) as nat).push(c) + digits@.reverse() =~= render_hex(
                    (rest / 16) as nat,
                ) + (seq![c] + digits@.reverse()));
            }
            digits.push(c);
            rest = rest / 16;
        }
        let d: u8 = rest as u8;
        let first: char = if d < 10 {
            (d + 48u8) as char
        } else {
            (d - 10 + 65u8) as char
        };
        let mut s = String::new();
        push_char(&mut s, '0');
        push_char(&mut s, 'x');
        push_char(&mut s, first);
        let mut i: usize = digits.len();
        while i > 0
            invariant
                i <= digits.len(),
                s@ =~= seq!['0', 'x', first] + digits@.reverse().take(digits.len() - i),
            decreases i,
        {
            i -= 1;
            proof {
                assert(digits@.reverse()[digits.len() - 1 - i] == digits@[i as int]);
            }
            push_char(&mut s, digits[i]);
        }
        proof {
            assert(first == hex_digit(rest as nat));
            assert(digits@.reverse().take(digits.len() as int) =~= digits@.reverse());
            assert(s@ =~= seq!['0', 'x'] + render_hex(*x as nat));
        }
        s
    }

    /// Reads a number: hexadecimal after `0x` or `0X`, and decimal otherwise.
    pub fn deserialize(value: &str) -> (r: Result<u32, ParseConstantError>)
        ensures
            match parse_hex_or_decimal(value@) {
                Ok(number) => r == Ok::<u32, ParseConstantError>(number as u32) && number
                    <= u32::MAX,
                Err(e) => r == Err::<u32, ParseConstantError>(e),
            },
    {
        let chars = chars_of(value);
        if chars.len() >= 2 && chars[0] == '0' && (chars[1] == 'x' || chars[1] == 'X') {
            read_radix(&chars, 2, 16)
        } else {
            assert(chars@.subrange(0, chars@.len() as int) =~= chars@);
            read_radix(&chars, 0, 10)
        }
    }
}

/// A selector of a patch on a device description: a regular expression that
/// must match a whole name.
#[derive(Debug, Clone, PartialEq, Eq)]
pub struct RegExStruct {
    pub regex: Regex,
}

impl RegExStruct {
    /// Anchors `regex_string` at both ends and checks it with the engine.
    pub fn from(regex_string: &str) -> (r: Result<RegExStruct, PatchError>)
        ensures
            regex_compiles(anchored(regex_string@)) ==> r is Ok,
            r matches Ok(selector) ==> selector.regex@ == anchored(regex_string@),
            r matches Err(e) ==> e == PatchError::InvalidPattern && !regex_compiles(
                anchored(regex_string@),
            ),
    {
        match Regex::from(regex_string) {
            Ok(regex) => Ok(RegExStruct { regex }),
            Err(e) => Err(e),
        }
    }

    /// The anchored source text.
    pub fn into_string(self) -> (s: String)
        ensures
            s@ == self.regex@,
    {
        self.regex.into_string()
    }
}

/// How a patch is combined with what is there.
#[derive(Debug, Eq, PartialEq, Clone, Copy)]
pub enum PatchType {
    Rewrite,
    Merge,
    Add,
}

/// The access rights to a register or a field.
#[derive(Debug, Eq, PartialEq, Clone, Copy)]
pub enum AccessType {
    ReadOnly,
    WriteOnly,
    ReadWrite,
    WriteOnce,
    ReadWriteOnce,
}

/// What a write does to the bits of a field.
#[derive(Debug, Eq, PartialEq, Clone, Copy)]
pub enum ModifiedWriteValues {
    OneToClear,
    OneToSet,
    OneToToggle,
    ZeroToClear,
    ZeroToSet,
    ZeroToToggle,
    Clear,
    SetBits,
    Modify,
}

/// What a read does to a register besides reading it.
#[derive(Debug, Eq, PartialEq, Clone, Copy)]
pub enum ReadAction {
    Clear,
    SetBits,
    Modify,
    ModifyExternal,
}

/// Which values may be written.
#[derive(Debug, Eq, PartialEq, Clone, Copy)]
pub enum WriteConstraint {
    WriteAsRead,
    UseEnumeratedValues,
    Range(u32, u32),
}

/// Whether enumerated values describe what is read, what is written, or both.
#[derive(Debug, Eq, PartialEq, Clone, Copy)]
pub enum EnumeratedValuesUsage {
    Read,
    Write,
    ReadWrite,
}

} // verus!
