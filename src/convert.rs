//! Conversion modes, and the conversion of one file's bytes.
use vstd::prelude::*;
use vstd::slice::slice_subrange;
use vstd::string::StringSliceAdditionalSpecFns;
use crate::region_file::{ChunkView, ParseError, Region, blinear_decoded, blinear_encoded, linear_decoded, records_fit};

verus! {

/// A conversion: the format read, then the format written.
#[derive(Debug, Clone, Copy, PartialEq, Eq, Structural)]
pub enum Mode {
    LinearMca,
    McaLinear,
    McaBlinear,
    BlinearMca,
    BlinearLinear,
    LinearBlinear,
}

/// The kind of region data, which names the folder that holds its files.
#[allow(non_camel_case_types)]
#[derive(Debug, Clone, Copy, PartialEq, Eq, Structural)]
pub enum RegionType {
    REGION,
    POI,
    ENTITIES,
}

/// The three container formats.
#[derive(Debug, Clone, Copy, PartialEq, Eq, Structural)]
pub enum Format {
    /// The legacy multi-file format; neither read nor written yet.
    Mca,
    /// The linear format; read only.
    Linear,
    /// The checksummed compressed format; read and written.
    Blinear,
}

/// Why converting one file failed.
#[derive(Debug, Clone, Copy, PartialEq, Eq, Structural)]
pub enum ConverseError {
    /// The file could not be read or written.
    ReadError,
    /// The mode reads or writes a format that is not implemented.
    UnsupportedConversion,
    /// A chunk's payload is too long for a record.
    ChunkTooLarge,
    /// The input could not be decoded.
    Parse(ParseError),
}

/// The format that `mode` reads.
pub open spec fn input_format(mode: Mode) -> Format {
    match mode {
        Mode::LinearMca | Mode::LinearBlinear => Format::Linear,
        Mode::BlinearMca | Mode::BlinearLinear => Format::Blinear,
        Mode::McaLinear | Mode::McaBlinear => Format::Mca,
    }
}

/// The format that `mode` writes.
pub open spec fn output_format(mode: Mode) -> Format {
    match mode {
        Mode::McaLinear | Mode::BlinearLinear => Format::Linear,
        Mode::McaBlinear | Mode::LinearBlinear => Format::Blinear,
        Mode::LinearMca | Mode::BlinearMca => Format::Mca,
    }
}

/// Whether files of `f` can be read.
pub open spec fn can_decode(f: Format) -> bool {
    f != Format::Mca
}

/// Whether files of `f` can be written.
pub open spec fn can_encode(f: Format) -> bool {
    f == Format::Blinear
}

/// Whether both sides of `mode` are implemented.
pub open spec fn mode_supported(mode: Mode) -> bool {
    can_decode(input_format(mode)) && can_encode(output_format(mode))
}

/// What reading `data` as format `f` gives.
pub open spec fn decoded_as(f: Format, data: Seq<u8>) -> Result<(Seq<ChunkView>, i64), ConverseError> {
    match f {
        Format::Mca => Err(ConverseError::UnsupportedConversion),
        Format::Linear => match linear_decoded(data) {
            Ok(v) => Ok(v),
            Err(e) => Err(ConverseError::Parse(e)),
        },
        Format::Blinear => match blinear_decoded(data) {
            Ok(v) => Ok(v),
            Err(e) => Err(ConverseError::Parse(e)),
        },
    }
}

/// What writing the chunks `cs` as format `f` gives.
pub open spec fn encoded_as(f: Format, cs: Seq<ChunkView>, timestamp: i64, level: u8) -> Result<
    Seq<u8>,
    ConverseError,
> {
    if f != Format::Blinear {
        Err(ConverseError::UnsupportedConversion)
    } else if !records_fit(cs) {
        Err(ConverseError::ChunkTooLarge)
    } else {
        Ok(blinear_encoded(cs, timestamp, level))
    }
}

/// What converting `data` by `mode` gives.
pub open spec fn converted(mode: Mode, data: Seq<u8>, timestamp: i64, level: u8) -> Result<
    Seq<u8>,
    ConverseError,
> {
    if !mode_supported(mode) {
        Err(ConverseError::UnsupportedConversion)
    } else {
        match decoded_as(input_format(mode), data) {
            Err(e) => Err(e),
            Ok(reg) => encoded_as(output_format(mode), reg.0, timestamp, level),
        }
    }
}

/// The folder that holds files of `region_type`.
pub open spec fn folder_of(region_type: RegionType) -> Seq<char> {
    match region_type {
        RegionType::REGION => "region"@,
        RegionType::POI => "poi"@,
        RegionType::ENTITIES => "entities"@,
    }
}

/// The file extension of format `f`.
pub open spec fn extension_of(f: Format) -> Seq<char> {
    match f {
        Format::Mca => "mca"@,
        Format::Linear => "linear"@,
        Format::Blinear => "blinear"@,
    }
}

/// Whether `c` is an ASCII decimal digit.
pub open spec fn is_digit(c: u8) -> bool {
    48 <= c <= 57
}

/// The value of the decimal digits `d[0..n]`.
pub open spec fn digits_value(d: Seq<u8>, n: int) -> int
    decreases n,
{
    if n <= 0 {
        0
    } else {
        digits_value(d, n - 1) * 10 + (d[n - 1] - 48)
    }
}

/// The digits of a decimal number, after an optional `+`.
pub open spec fn decimal_digits(b: Seq<u8>) -> Seq<u8> {
    if b.len() > 0 && b[0] == 43 {
        b.subrange(1, b.len() as int)
    } else {
        b
    }
}

/// The number that `b` writes in decimal: an optional `+`, then one or more
/// digits.
pub open spec fn decimal_of(b: Seq<u8>) -> Option<int> {
    let d = decimal_digits(b);
    if d.len() > 0 && forall|i: int| 0 <= i < d.len() ==> is_digit(#[trigger] d[i]) {
        Some(digits_value(d, d.len() as int))
    } else {
        None
    }
}

/// The greatest compression level.
pub const MAX_COMPRESSION_LEVEL: u32 = 22;

/// Reads a compression level: a decimal number from 0 to 22.
pub fn validate_compression_level(s: &str) -> (r: Result<u32, String>)
    ensures
        match r {
            Ok(level) => decimal_of(s.spec_bytes()) == Some(level as int) && level <= MAX_COMPRESSION_LEVEL,
            Err(_) => !(decimal_of(s.spec_bytes()) matches Some(v) && v <= MAX_COMPRESSION_LEVEL),
        },
{
    let b = s.as_bytes();
    let start: usize = if b.len() > 0 && b[0] == 43 {
        1
    } else {
        0
    };
    let d = slice_subrange(b, start, b.len());
    assert(d@ == decimal_digits(b@));
    if d.len() == 0 {
        return Err("Compression level must be an integer between 0 and 22".to_owned());
    }
    // the value so far, or 23 once it is past the greatest level
    let mut acc: u32 = 0;
    let mut i: usize = 0;
    while i < d.len()
        invariant
            i <= d@.len(),
            d@ == decimal_digits(b@),
            b@ == s.spec_bytes(),
            forall|j: int| 0 <= j < i ==> is_digit(#[trigger] d@[j]),
            digits_value(d@, i as int) >= 0,
            acc == if digits_value(d@, i as int) <= 22 {
                digits_value(d@, i as int)
            } else {
                23
            },
        decreases d@.len() - i,
    {
        let c = d[i];
        if c < 48 || c > 57 {
            assert(!is_digit(d@[i as int]));
            return Err("Compression level must be an integer between 0 and 22".to_owned());
        }
        let v = acc * 10 + (c - 48) as u32;
        acc = if v > 22 {
            23
        } else {
            v
        };
        i = i + 1;
    }
    if acc > MAX_COMPRESSION_LEVEL {
        Err("Compression level must be an integer between 0 and 22".to_owned())
    } else {
        Ok(acc)
    }
}

/// The format that `mode` reads.
pub fn input_format_of(mode: Mode) -> (r: Format)
    ensures
        r == input_format(mode),
{
    match mode {
        Mode::LinearMca | Mode::LinearBlinear => Format::Linear,
        Mode::BlinearMca | Mode::BlinearLinear => Format::Blinear,
        Mode::McaLinear | Mode::McaBlinear => Format::Mca,
    }
}

/// The format that `mode` writes.
pub fn output_format_of(mode: Mode) -> (r: Format)
    ensures
        r == output_format(mode),
{
    match mode {
        Mode::McaLinear | Mode::BlinearLinear => Format::Linear,
        Mode::McaBlinear | Mode::LinearBlinear => Format::Blinear,
        Mode::LinearMca | Mode::BlinearMca => Format::Mca,
    }
}

/// Whether both sides of `mode` are implemented.
pub fn is_supported(mode: Mode) -> (r: bool)
    ensures
        r == mode_supported(mode),
{
    let i = input_format_of(mode);
    let o = output_format_of(mode);
    !matches!(i, Format::Mca) && matches!(o, Format::Blinear)
}

/// The folder, under a world, that holds files of `region_type`.
pub fn folder_name(region_type: RegionType) -> (r: String)
    ensures
        r@ == folder_of(region_type),
{
    match region_type {
        RegionType::REGION => "region".to_owned(),
        RegionType::POI => "poi".to_owned(),
        RegionType::ENTITIES => "entities".to_owned(),
    }
}

/// The file extension, without the dot, of what `mode` writes.
pub fn output_file_extension_by_mode(mode: Mode) -> (r: String)
    ensures
        r@ == extension_of(output_format(mode)),
{
    match output_format_of(mode) {
        Format::Mca => "mca".to_owned(),
        Format::Linear => "linear".to_owned(),
        Format::Blinear => "blinear".to_owned(),
    }
}

/// Reads `data` in the format that `mode` reads.
pub fn get_input_call(mode: Mode, data: &[u8]) -> (r: Result<Region, ConverseError>)
    ensures
        match r {
            Ok(reg) => decoded_as(input_format(mode), data@) == Ok::<
                (Seq<ChunkView>, i64),
                ConverseError,
            >(reg@),
            Err(e) => decoded_as(input_format(mode), data@) == Err::<
                (Seq<ChunkView>, i64),
                ConverseError,
            >(e),
        },
{
    match input_format_of(mode) {
        Format::Mca => Err(ConverseError::UnsupportedConversion),
        Format::Linear => match Region::from_bytes_linear_v2(data) {
            Ok(reg) => Ok(reg),
            Err(e) => Err(ConverseError::Parse(e)),
        },
        Format::Blinear => match Region::from_bytes_blinear(data) {
            Ok(reg) => Ok(reg),
            Err(e) => Err(ConverseError::Parse(e)),
        },
    }
}

/// Writes `region` in the format that `mode` writes, with the given master
/// timestamp and compression level.
pub fn get_output_call(mode: Mode, region: &Region, timestamp: i64, compression_level: u8) -> (r:
    Result<Vec<u8>, ConverseError>)
    ensures
        match r {
            Ok(v) => encoded_as(output_format(mode), region@.0, timestamp, compression_level) == Ok::<
                Seq<u8>,
                ConverseError,
            >(v@),
            Err(e) => encoded_as(output_format(mode), region@.0, timestamp, compression_level)
                == Err::<Seq<u8>, ConverseError>(e),
        },
{
    match output_format_of(mode) {
        Format::Blinear => {
            if region.fits_records() {
                Ok(region.to_bytes_blinear(timestamp, compression_level))
            } else {
                Err(ConverseError::ChunkTooLarge)
            }
        },
        _ => Err(ConverseError::UnsupportedConversion),
    }
}

/// Converts the bytes of one file by `mode`, writing `timestamp` as the new
/// master timestamp. A mode with a side that is not implemented fails with
/// `UnsupportedConversion` whatever the input.
pub fn convert_bytes(mode: Mode, data: &[u8], timestamp: i64, compression_level: u8) -> (r: Result<
    Vec<u8>,
    ConverseError,
>)
    ensures
        match r {
            Ok(v) => converted(mode, data@, timestamp, compression_level) == Ok::<
                Seq<u8>,
                ConverseError,
            >(v@),
            Err(e) => converted(mode, data@, timestamp, compression_level) == Err::<
                Seq<u8>,
                ConverseError,
            >(e),
        },
        !mode_supported(mode) ==> r == Err::<Vec<u8>, ConverseError>(
            ConverseError::UnsupportedConversion,
        ),
{
    if !is_supported(mode) {
        return Err(ConverseError::UnsupportedConversion);
    }
    let region = match get_input_call(mode, data) {
        Ok(reg) => reg,
        Err(e) => {
            return Err(e);
        },
    };
    get_output_call(mode, &region, timestamp, compression_level)
}

} // verus!
