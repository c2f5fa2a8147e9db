use vstd::prelude::*;
use vstd::utf8::{decode_utf8, valid_utf8};

verus! {

/// Why a string could not be read out of a byte buffer.
#[derive(Debug, Copy, Clone, PartialEq, Eq, Structural)]
pub enum ReadError {
    /// The bytes run out before the string ends.
    UnexpectedEof,
    /// The bytes are not valid UTF-8.
    InvalidUtf8,
}

/// Bytes read one for one as characters (Latin-1).
pub open spec fn latin1(b: Seq<u8>) -> Seq<char> {
    b.map_values(|x: u8| x as char)
}

/// Whether `data` holds a zero byte at or after `off`.
pub open spec fn has_terminator(data: Seq<u8>, off: int) -> bool {
    exists|z: int| off <= z < data.len() && #[trigger] data[z] == 0
}

/// Relies on `String::from_utf8`: it succeeds exactly on valid UTF-8 and
/// then holds the characters the bytes encode.
#[verifier::external_body]
fn string_from_utf8(bytes: Vec<u8>) -> (r: Option<String>)
    ensures
        r is Some <==> valid_utf8(bytes@),
        r matches Some(s) ==> s@ == decode_utf8(bytes@),
{
    String::from_utf8(bytes).ok()
}

/// Relies on `String::push`: it appends one character.
#[verifier::external_body]
fn push_char(s: &mut String, c: char)
    ensures
        final(s)@ == old(s)@.push(c),
{
    s.push(c)
}

/// Reads the UTF-8 string of `size` bytes that starts at `off`.
pub fn read_string(data: &[u8], off: u64, size: usize) -> (r: Result<String, ReadError>)
    ensures
        off as int + size as int > data@.len() <==> r == Err::<String, ReadError>(
            ReadError::UnexpectedEof,
        ),
        off as int + size as int <= data@.len() ==> {
            let b = data@.subrange(off as int, off as int + size as int);
            &&& (r is Ok <==> valid_utf8(b))
            &&& (r matches Ok(s) ==> s@ == decode_utf8(b))
            &&& (r is Err ==> r == Err::<String, ReadError>(ReadError::InvalidUtf8))
        },
{
    if off > data.len() as u64 || size > data.len() - off as usize {
        return Err(ReadError::UnexpectedEof);
    }
    let start = off as usize;
    let n = data.len();
    let mut bytes: Vec<u8> = Vec::new();
    let mut i: usize = 0;
    while i < size
        invariant
            start as int + size as int <= data@.len(),
            n == data@.len(),
            start == off,
            i <= size,
            bytes@ == data@.subrange(start as int, start + i),
        decreases size - i,
    {
        bytes.push(data[start + i]);
        i = i + 1;
        assert(bytes@ =~= data@.subrange(start as int, start + i));
    }
    match string_from_utf8(bytes) {
        Some(s) => Ok(s),
        None => Err(ReadError::InvalidUtf8),
    }
}

/// Reads the zero-terminated string that starts at `off`, each byte taken as
/// one character.
pub fn read_c_string(data: &[u8], off: u64) -> (r: Result<String, ReadError>)
    ensures
        match r {
            Ok(s) => exists|z: int|
                off <= z < data@.len() && data@[z] == 0 && (forall|k: int|
                    off <= k < z ==> data@[k] != 0) && s@ == latin1(data@.subrange(off as int, z)),
            Err(e) => e == ReadError::UnexpectedEof && !has_terminator(data@, off as int),
        },
{
    let mut s = String::new();
    if off >= data.len() as u64 {
        return Err(ReadError::UnexpectedEof);
    }
    let start = off as usize;
    let mut i: usize = start;
    while i < data.len()
        invariant
            start == off,
            start <= i <= data@.len(),
            forall|k: int| start <= k < i ==> data@[k] != 0,
            s@ == latin1(data@.subrange(start as int, i as int)),
        decreases data@.len() - i,
    {
        let b = data[i];
        if b == 0 {
            return Ok(s);
        }
        push_char(&mut s, b as char);
        i = i + 1;
        assert(s@ =~= latin1(data@.subrange(start as int, i as int)));
    }
    Err(ReadError::UnexpectedEof)
}

/// How the contents of a file are stored.
#[derive(Debug, Copy, Clone, PartialEq, Eq, Structural)]
pub enum FileFormat {
    /// Used as they are.
    Plain,
    /// Yaz0-compressed.
    Yaz0,
    /// A RARC archive of further files.
    Rarc,
}

/// Whether `data` is longer than four bytes and starts with `magic`.
pub open spec fn starts_with_magic(data: Seq<u8>, magic: Seq<u8>) -> bool {
    data.len() > 4 && data.subrange(0, 4) == magic
}

pub open spec fn yaz0_magic() -> Seq<u8> {
    seq![0x59u8, 0x61u8, 0x7Au8, 0x30u8]
}

pub open spec fn rarc_magic() -> Seq<u8> {
    seq![0x52u8, 0x41u8, 0x52u8, 0x43u8]
}

/// Tells a file's storage by its first four bytes; a file of four bytes or
/// fewer is plain.
pub fn file_format(data: &[u8]) -> (r: FileFormat)
    ensures
        r == if starts_with_magic(data@, yaz0_magic()) {
            FileFormat::Yaz0
        } else if starts_with_magic(data@, rarc_magic()) {
            FileFormat::Rarc
        } else {
            FileFormat::Plain
        },
{
    if data.len() <= 4 {
        return FileFormat::Plain;
    }
    let (a, b, c, d) = (data[0], data[1], data[2], data[3]);
    proof {
        assert(data@.subrange(0, 4) =~= seq![a, b, c, d]);
    }
    if a == 0x59 && b == 0x61 && c == 0x7A && d == 0x30 {
        FileFormat::Yaz0
    } else if a == 0x52 && b == 0x41 && c == 0x52 && d == 0x43 {
        FileFormat::Rarc
    } else {
        proof {
            if data@.subrange(0, 4) == yaz0_magic() {
                assert(seq![a, b, c, d][0] == yaz0_magic()[0]);
                assert(seq![a, b, c, d][1] == yaz0_magic()[1]);
                assert(seq![a, b, c, d][2] == yaz0_magic()[2]);
                assert(seq![a, b, c, d][3] == yaz0_magic()[3]);
            }
            if data@.subrange(0, 4) == rarc_magic() {
                assert(seq![a, b, c, d][0] == rarc_magic()[0]);
                assert(seq![a, b, c, d][1] == rarc_magic()[1]);
                assert(seq![a, b, c, d][2] == rarc_magic()[2]);
                assert(seq![a, b, c, d][3] == rarc_magic()[3]);
            }
        }
        FileFormat::Plain
    }
}

} // verus!
