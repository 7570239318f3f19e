//! What can go wrong with an address, in values and in words.

use vstd::prelude::*;
use crate::digits::{decimal_text, find_fault, numeral_fault, NumeralFault};
use crate::text::{chars_of, push_text, string_of};

verus! {

/// Why a text is not a peer address.
#[derive(Debug, Clone)]
pub enum ParseError {
    /// The port is not a decimal number that fits sixteen bits; holds the
    /// text found in its place. In words the error says what is wrong with
    /// that text.
    ParseIntError(String),
    /// An onion label that has neither of the two lengths in use.
    WrongLength { address: String, length: usize, expected: String },
    /// The host is no socket address and carries no known overlay suffix.
    UnrecognizedAddressFormat,
    /// No colon separates a port from the host.
    MissingPort,
}

/// A parse error as a mathematical value.
pub enum ParseErrorView {
    ParseIntError(Seq<char>),
    WrongLength { address: Seq<char>, length: nat, expected: Seq<char> },
    UnrecognizedAddressFormat,
    MissingPort,
}

impl View for ParseError {
    type V = ParseErrorView;

    open spec fn view(&self) -> ParseErrorView {
        match *self {
            ParseError::ParseIntError(text) => ParseErrorView::ParseIntError(text@),
            ParseError::WrongLength { address, length, expected } => ParseErrorView::WrongLength {
                address: address@,
                length: length as nat,
                expected: expected@,
            },
            ParseError::UnrecognizedAddressFormat => ParseErrorView::UnrecognizedAddressFormat,
            ParseError::MissingPort => ParseErrorView::MissingPort,
        }
    }
}

/// What is wrong with a numeral, in words.
pub open spec fn fault_text(fault: NumeralFault) -> Seq<char> {
    match fault {
        NumeralFault::Empty => "cannot parse integer from empty string"@,
        NumeralFault::InvalidDigit => "invalid digit found in string"@,
        NumeralFault::TooLarge => "number too large to fit in target type"@,
    }
}

impl ParseErrorView {
    /// The error in words.
    pub open spec fn text(self) -> Seq<char> {
        match self {
            ParseErrorView::ParseIntError(found) => "Error parsing int: `"@ + fault_text(
                numeral_fault(found, 0xffff),
            ) + "`"@,
            ParseErrorView::WrongLength { address, length, expected } => "Address `"@ + address
                + "` has wrong length ("@ + decimal_text(length) + ") for "@ + expected,
            ParseErrorView::UnrecognizedAddressFormat => "Unrecognized address format"@,
            ParseErrorView::MissingPort => "Address is missing port"@,
        }
    }
}

impl ParseError {
    /// The error in words.
    pub fn to_string(&self) -> (text: String)
        ensures
            text@ == self@.text(),
    {
        let mut out: Vec<char> = Vec::new();
        match self {
            ParseError::ParseIntError(found) => {
                let chars = chars_of(found.as_str());
                push_text(&mut out, "Error parsing int: `");
                match find_fault(chars.as_slice(), 0xffff) {
                    NumeralFault::Empty => {
                        push_text(&mut out, "cannot parse integer from empty string");
                    },
                    NumeralFault::InvalidDigit => {
                        push_text(&mut out, "invalid digit found in string");
                    },
                    NumeralFault::TooLarge => {
                        push_text(&mut out, "number too large to fit in target type");
                    },
                }
                push_text(&mut out, "`");
            },
            ParseError::WrongLength { address, length, expected } => {
                push_text(&mut out, "Address `");
                push_text(&mut out, address.as_str());
                push_text(&mut out, "` has wrong length (");
                push_usize(&mut out, *length);
                push_text(&mut out, ") for ");
                push_text(&mut out, expected.as_str());
            },
            ParseError::UnrecognizedAddressFormat => {
                push_text(&mut out, "Unrecognized address format");
            },
            ParseError::MissingPort => {
                push_text(&mut out, "Address is missing port");
            },
        }
        assert(out@ =~= self@.text());
        string_of(out.as_slice())
    }
}

/// Appends the decimal numeral of `n` to `out`.
fn push_usize(out: &mut Vec<char>, n: usize)
    ensures
        final(out)@ == old(out)@ + decimal_text(n as nat),
    decreases n,
{
    if n >= 10 {
        push_usize(out, n / 10);
    }
    let d = (n % 10) as u8;
    out.push((d + 48) as char);
    proof {
        assert(out@ =~= old(out)@ + decimal_text(n as nat));
    }
}

/// Why an address could not be unpacked or connected to.
#[derive(Debug, Clone)]
pub enum AddressError {
    /// The packed bytes do not hold an address.
    UnpackError,
    /// No address family packs into this many bytes.
    InvalidBytearray(usize),
    /// No stream pair can be opened to this family of address.
    TcpStreamError,
    /// The transport failed; holds its description.
    IoError(String),
    /// The address does not belong to the family that was asked for.
    InvalidAddressType,
}

/// An address error as a mathematical value.
pub enum AddressErrorView {
    UnpackError,
    InvalidBytearray(usize),
    TcpStreamError,
    IoError(Seq<char>),
    InvalidAddressType,
}

impl View for AddressError {
    type V = AddressErrorView;

    open spec fn view(&self) -> AddressErrorView {
        match *self {
            AddressError::UnpackError => AddressErrorView::UnpackError,
            AddressError::InvalidBytearray(n) => AddressErrorView::InvalidBytearray(n),
            AddressError::TcpStreamError => AddressErrorView::TcpStreamError,
            AddressError::IoError(text) => AddressErrorView::IoError(text@),
            AddressError::InvalidAddressType => AddressErrorView::InvalidAddressType,
        }
    }
}

impl AddressErrorView {
    /// The error in words.
    pub open spec fn text(self) -> Seq<char> {
        match self {
            AddressErrorView::UnpackError => "Error unpacking address"@,
            AddressErrorView::InvalidBytearray(n) => "Unexpected number of bytes "@ + decimal_text(
                n as nat,
            ),
            AddressErrorView::TcpStreamError => "Error creating tcp stream read-write pair"@,
            AddressErrorView::IoError(_) => "I/O Error"@,
            AddressErrorView::InvalidAddressType => "Address is of an invalid type"@,
        }
    }
}

impl AddressError {
    /// The error in words.
    pub fn to_string(&self) -> (text: String)
        ensures
            text@ == self@.text(),
    {
        let mut out: Vec<char> = Vec::new();
        match self {
            AddressError::UnpackError => {
                push_text(&mut out, "Error unpacking address");
            },
            AddressError::InvalidBytearray(n) => {
                push_text(&mut out, "Unexpected number of bytes ");
                push_usize(&mut out, *n);
            },
            AddressError::TcpStreamError => {
                push_text(&mut out, "Error creating tcp stream read-write pair");
            },
            AddressError::IoError(_) => {
                push_text(&mut out, "I/O Error");
            },
            AddressError::InvalidAddressType => {
                push_text(&mut out, "Address is of an invalid type");
            },
        }
        assert(out@ =~= self@.text());
        string_of(out.as_slice())
    }
}

} // verus!
