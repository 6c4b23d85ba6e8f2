//! Province map save: stages, progress, reports, and the checks that a staged
//! `provinces.bmp` and `definition.csv` are complete and consistent.
use vstd::prelude::*;
use crate::text::{decimal, push_decimal, signed_decimal, push_signed_decimal};
use crate::map_layers::Color;
use std::collections::BTreeSet;
use crate::compatibility::{bmp_header, bmp_header_of, bmp_rgb, bmp_rgb_of};

verus! {

broadcast use vstd::std_specs::btree::group_btree_axioms;

#[derive(Debug, Clone, Copy, PartialEq, Eq, Structural)]
pub enum ProvinceSaveMode {
    Save,
    Export,
}

impl ProvinceSaveMode {
    /// Only a project save, not an export, clears the province dirty state.
    pub fn clears_dirty(self) -> (r: bool)
        ensures
            r == (self == ProvinceSaveMode::Save),
    {
        match self {
            ProvinceSaveMode::Save => true,
            ProvinceSaveMode::Export => false,
        }
    }
}

#[derive(Debug, Clone, Copy, PartialEq, Eq, Structural)]
pub enum ProvinceSaveStage {
    Preparing,
    EncodingBmp,
    WritingDefinition,
    Staging,
    Validating,
    BackingUp,
    Committing,
    Reloading,
    Verifying,
    Completed,
    RolledBack,
}

pub open spec fn stage_label(stage: ProvinceSaveStage) -> Seq<char> {
    match stage {
        ProvinceSaveStage::Preparing => "Preparing province data"@,
        ProvinceSaveStage::EncodingBmp => "Encoding provinces.bmp"@,
        ProvinceSaveStage::WritingDefinition => "Writing definition.csv"@,
        ProvinceSaveStage::Staging => "Writing staged files"@,
        ProvinceSaveStage::Validating => "Validating staged files"@,
        ProvinceSaveStage::BackingUp => "Creating verified backup"@,
        ProvinceSaveStage::Committing => "Applying validated files"@,
        ProvinceSaveStage::Reloading => "Reloading saved province map"@,
        ProvinceSaveStage::Verifying => "Verifying saved province map"@,
        ProvinceSaveStage::Completed => "Province map save completed"@,
        ProvinceSaveStage::RolledBack => "Province map save rolled back"@,
    }
}

/// Stages before anything is committed can be cancelled.
pub open spec fn stage_cancellable(stage: ProvinceSaveStage) -> bool {
    match stage {
        ProvinceSaveStage::Preparing
        | ProvinceSaveStage::EncodingBmp
        | ProvinceSaveStage::WritingDefinition
        | ProvinceSaveStage::Staging
        | ProvinceSaveStage::Validating
        | ProvinceSaveStage::BackingUp => true,
        _ => false,
    }
}

impl ProvinceSaveStage {
    pub fn label(self) -> (r: &'static str)
        ensures
            r@ == stage_label(self),
    {
        match self {
            ProvinceSaveStage::Preparing => "Preparing province data",
            ProvinceSaveStage::EncodingBmp => "Encoding provinces.bmp",
            ProvinceSaveStage::WritingDefinition => "Writing definition.csv",
            ProvinceSaveStage::Staging => "Writing staged files",
            ProvinceSaveStage::Validating => "Validating staged files",
            ProvinceSaveStage::BackingUp => "Creating verified backup",
            ProvinceSaveStage::Committing => "Applying validated files",
            ProvinceSaveStage::Reloading => "Reloading saved province map",
            ProvinceSaveStage::Verifying => "Verifying saved province map",
            ProvinceSaveStage::Completed => "Province map save completed",
            ProvinceSaveStage::RolledBack => "Province map save rolled back",
        }
    }

    pub fn cancellable(self) -> (r: bool)
        ensures
            r == stage_cancellable(self),
    {
        matches!(
            self,
            ProvinceSaveStage::Preparing | ProvinceSaveStage::EncodingBmp
                | ProvinceSaveStage::WritingDefinition | ProvinceSaveStage::Staging
                | ProvinceSaveStage::Validating | ProvinceSaveStage::BackingUp
        )
    }
}

/// Once files are being committed the save can no longer be cancelled.
pub proof fn law_commit_and_later_stages_are_not_cancellable(stage: ProvinceSaveStage)
    requires
        stage == ProvinceSaveStage::Committing || stage == ProvinceSaveStage::Reloading
            || stage == ProvinceSaveStage::Verifying || stage == ProvinceSaveStage::Completed
            || stage == ProvinceSaveStage::RolledBack,
    ensures
        !stage_cancellable(stage),
{
}

#[derive(Debug, Clone, Copy, PartialEq, Eq, Structural)]
pub struct ProvinceSaveProgress {
    pub stage: ProvinceSaveStage,
    pub current: u64,
    pub total: u64,
}

impl ProvinceSaveProgress {
    /// The percentage done, with `current * 100` saturating at `u64::MAX`;
    /// none when the total is zero.
    pub fn percent(self) -> (r: Option<u64>)
        ensures
            self.total == 0 ==> r is None,
            self.total != 0 && self.current <= self.total ==> (r matches Some(p) && p <= 100),
            self.total != 0 && self.current == self.total && self.current * 100 <= u64::MAX ==> r == Some(100u64),
            self.total != 0 && self.current == 0 ==> r == Some(0u64),
            self.total != 0 ==> r == Some(
                (if self.current * 100 > u64::MAX {
                    u64::MAX as int
                } else {
                    self.current * 100
                } / self.total as int) as u64,
            ),
    {
        if self.total == 0 {
            None
        } else {
            let scaled: u64 = match self.current.checked_mul(100) {
                Some(v) => v,
                None => u64::MAX,
            };
            proof {
                let t = self.total as int;
                let c = self.current as int;
                if c <= t {
                    assert(scaled as int <= 100 * t) by (nonlinear_arith)
                        requires
                            scaled as int <= 100 * c || scaled as int == u64::MAX as int && 100 * c > u64::MAX as int,
                            c <= t,
                    ;
                    assert((scaled as int) / t <= 100) by (nonlinear_arith)
                        requires
                            scaled as int <= 100 * t,
                            t > 0,
                            scaled >= 0,
                    ;
                }
                if c == t && c * 100 <= u64::MAX {
                    assert(scaled as int == 100 * t);
                    assert((100 * t) / t == 100) by (nonlinear_arith)
                        requires
                            t > 0,
                    ;
                }
            }
            Some(scaled / self.total)
        }
    }
}

/// Phase durations of a save, in milliseconds.
#[derive(Debug, Clone, Copy, Default, PartialEq, Eq, Structural)]
pub struct ProvinceSaveTimings {
    pub preparing: u64,
    pub encoding_bmp: u64,
    pub writing_definition: u64,
    pub staging: u64,
    pub validating: u64,
    pub backup: u64,
    pub commit: u64,
    pub reload: u64,
    pub verify: u64,
}

#[derive(Debug, Clone, PartialEq, Eq)]
pub struct ProvinceSavedFile {
    pub path: String,
    pub size: u64,
    pub sha256: String,
}

#[derive(Debug, Clone)]
pub struct ProvinceSaveReport {
    pub mode: ProvinceSaveMode,
    pub transaction_id: String,
    pub destination: String,
    pub backup_id: Option<String>,
    pub files: Vec<ProvinceSavedFile>,
    pub timings: ProvinceSaveTimings,
    pub had_id_changes: bool,
}

pub open spec fn saved_file_line(file: ProvinceSavedFile) -> Seq<char> {
    file.path@ + ": "@ + decimal(file.size as nat) + " bytes, SHA-256 "@ + file.sha256@
}

/// The saved-file lines joined by newlines.
pub open spec fn saved_file_lines(files: Seq<ProvinceSavedFile>) -> Seq<char>
    decreases files.len(),
{
    if files.len() == 0 {
        seq![]
    } else if files.len() == 1 {
        saved_file_line(files[0])
    } else {
        saved_file_lines(files.drop_last()) + "\n"@ + saved_file_line(files.last())
    }
}

pub open spec fn timings_line(t: ProvinceSaveTimings) -> Seq<char> {
    "Timings (ms): prepare "@ + decimal(t.preparing as nat) + " | BMP encode "@ + decimal(
        t.encoding_bmp as nat,
    ) + " | definition "@ + decimal(t.writing_definition as nat) + " | stage "@ + decimal(
        t.staging as nat,
    ) + " | validate "@ + decimal(t.validating as nat) + " | backup "@ + decimal(
        t.backup as nat,
    ) + " | commit "@ + decimal(t.commit as nat) + " | reload "@ + decimal(t.reload as nat)
        + " | verify "@ + decimal(t.verify as nat)
}

/// The human-readable report: what happened where, the backup, each file
/// with size and digest, and the phase timings.
pub open spec fn report_summary(report: ProvinceSaveReport) -> Seq<char> {
    let verb = match report.mode {
        ProvinceSaveMode::Save => "Province map saved"@,
        ProvinceSaveMode::Export => "Province map exported"@,
    };
    let backup = match report.backup_id {
        Some(id) => "Backup: "@ + id@,
        None => "Backup: not applicable"@,
    };
    verb + " at "@ + report.destination@ + "\n"@ + backup + "\n"@ + saved_file_lines(
        report.files@,
    ) + "\n"@ + timings_line(report.timings)
}

fn push_timings(out: &mut String, t: ProvinceSaveTimings)
    ensures
        final(out)@ == old(out)@ + timings_line(t),
{
    out.append("Timings (ms): prepare ");
    push_decimal(out, t.preparing);
    out.append(" | BMP encode ");
    push_decimal(out, t.encoding_bmp);
    out.append(" | definition ");
    push_decimal(out, t.writing_definition);
    out.append(" | stage ");
    push_decimal(out, t.staging);
    out.append(" | validate ");
    push_decimal(out, t.validating);
    out.append(" | backup ");
    push_decimal(out, t.backup);
    out.append(" | commit ");
    push_decimal(out, t.commit);
    out.append(" | reload ");
    push_decimal(out, t.reload);
    out.append(" | verify ");
    push_decimal(out, t.verify);
    proof {
        assert(final(out)@ =~= old(out)@ + timings_line(t));
    }
}

fn push_file_lines(out: &mut String, files: &Vec<ProvinceSavedFile>)
    ensures
        final(out)@ == old(out)@ + saved_file_lines(files@),
{
    let ghost head = out@;
    let mut i: usize = 0;
    while i < files.len()
        invariant
            i <= files@.len(),
            out@ == head + saved_file_lines(files@.take(i as int)),
        decreases files@.len() - i,
    {
        if i > 0 {
            out.append("\n");
        }
        let file = &files[i];
        out.append(file.path.as_str());
        out.append(": ");
        push_decimal(out, file.size);
        out.append(" bytes, SHA-256 ");
        out.append(file.sha256.as_str());
        proof {
            let prefix = files@.take(i as int);
            let next = files@.take(i + 1);
            assert(next.drop_last() =~= prefix);
            assert(next.last() == files@[i as int]);
            if i == 0 {
                assert(saved_file_lines(next) == saved_file_line(next[0]));
            }
            assert(out@ =~= head + saved_file_lines(next));
        }
        i = i + 1;
    }
    proof {
        assert(files@.take(files@.len() as int) =~= files@);
    }
}

impl ProvinceSaveReport {
    pub fn summary_text(&self) -> (r: String)
        ensures
            r@ == report_summary(*self),
    {
        let mut out = match self.mode {
            ProvinceSaveMode::Save => String::from_str("Province map saved"),
            ProvinceSaveMode::Export => String::from_str("Province map exported"),
        };
        out.append(" at ");
        out.append(self.destination.as_str());
        out.append("\n");
        match &self.backup_id {
            Some(id) => {
                out.append("Backup: ");
                out.append(id.as_str());
            },
            None => {
                out.append("Backup: not applicable");
            },
        }
        out.append("\n");
        push_file_lines(&mut out, &self.files);
        out.append("\n");
        push_timings(&mut out, self.timings);
        proof {
            assert(out@ =~= report_summary(*self));
        }
        out
    }
}

// ---------------------------------------------------------------------------
// Staged BMP checks
// ---------------------------------------------------------------------------

/// Why a staged `provinces.bmp` was refused before its pixels were decoded.
#[derive(Debug, Clone, Copy, PartialEq, Eq, Structural)]
pub enum BmpHeaderError {
    InvalidHeader,
    Truncated,
    FormatMismatch { dib_size: u32, width: i32, height: i32, planes: u16, bit_depth: u16, compression: u32 },
    DimensionMismatch { width: i32, height: i32, expected_width: u32, expected_height: u32 },
    SizeMismatch { header: u32, actual: usize, expected: u64 },
    SizeOverflow,
}

pub open spec fn le_u16_spec(b: Seq<u8>, offset: int) -> u16 {
    (b[offset] as int + b[offset + 1] as int * 256) as u16
}

pub open spec fn le_u32_spec(b: Seq<u8>, offset: int) -> u32 {
    (b[offset] as int + b[offset + 1] as int * 256 + b[offset + 2] as int * 65536 + b[offset + 3] as int
        * 16777216) as u32
}

pub open spec fn le_i32_spec(b: Seq<u8>, offset: int) -> i32 {
    let u = le_u32_spec(b, offset) as int;
    (if u >= 0x8000_0000 {
        u - 0x1_0000_0000
    } else {
        u
    }) as i32
}

/// Little-endian `u16` at `offset`; an error where the bytes end first.
pub fn le_u16(bytes: &[u8], offset: usize) -> (r: Result<u16, BmpHeaderError>)
    ensures
        offset + 2 <= bytes@.len() ==> r == Ok::<u16, BmpHeaderError>(le_u16_spec(bytes@, offset as int)),
        offset + 2 > bytes@.len() ==> r == Err::<u16, BmpHeaderError>(BmpHeaderError::Truncated),
{
    if bytes.len() < 2 || offset > bytes.len() - 2 {
        return Err(BmpHeaderError::Truncated);
    }
    Ok(bytes[offset] as u16 + bytes[offset + 1] as u16 * 256)
}

/// Little-endian `u32` at `offset`; an error where the bytes end first.
pub fn le_u32(bytes: &[u8], offset: usize) -> (r: Result<u32, BmpHeaderError>)
    ensures
        offset + 4 <= bytes@.len() ==> r == Ok::<u32, BmpHeaderError>(le_u32_spec(bytes@, offset as int)),
        offset + 4 > bytes@.len() ==> r == Err::<u32, BmpHeaderError>(BmpHeaderError::Truncated),
{
    if bytes.len() < 4 || offset > bytes.len() - 4 {
        return Err(BmpHeaderError::Truncated);
    }
    Ok(bytes[offset] as u32 + bytes[offset + 1] as u32 * 256 + bytes[offset + 2] as u32 * 65536
        + bytes[offset + 3] as u32 * 16777216)
}

/// Little-endian two's-complement `i32` at `offset`.
pub fn le_i32(bytes: &[u8], offset: usize) -> (r: Result<i32, BmpHeaderError>)
    ensures
        offset + 4 <= bytes@.len() ==> r == Ok::<i32, BmpHeaderError>(le_i32_spec(bytes@, offset as int)),
        offset + 4 > bytes@.len() ==> r == Err::<i32, BmpHeaderError>(BmpHeaderError::Truncated),
{
    let u = le_u32(bytes, offset)?;
    if u >= 0x8000_0000 {
        Ok((u as i64 - 0x1_0000_0000i64) as i32)
    } else {
        Ok(u as i32)
    }
}

/// Bytes per BMP row: three bytes per pixel, padded to a multiple of four.
pub open spec fn bmp_stride(width: int) -> int {
    (width * 3 + 3) / 4 * 4
}

/// A BMP row of 24-bit pixels is padded to the next multiple of four bytes:
/// it holds the row's bytes and fewer than four more.
pub proof fn lemma_bmp_stride_laws(width: int)
    requires
        width >= 0,
    ensures
        bmp_stride(width) % 4 == 0,
        3 * width <= bmp_stride(width) < 3 * width + 4,
        (3 * width) % 4 == 0 ==> bmp_stride(width) == 3 * width,
{
}

/// The file `image`'s BMP encoder writes for 24-bit pixels `rgb`, row by
/// row from the top, of an image of `width` by `height` pixels.
pub uninterp spec fn bmp_encoding_of(width: u32, height: u32, rgb: Seq<u8>) -> Seq<u8>;

/// The encoder's sizes fit its 32-bit header fields: a padded row, and the
/// whole file.
pub open spec fn bmp_encodable(width: u32, height: u32) -> bool {
    bmp_stride(width as int) <= u32::MAX && 54 + bmp_stride(width as int) * height as int <= u32::MAX
}

/// Calls `image::codecs::bmp::BmpEncoder::encode` with 24-bit RGB pixels,
/// writing into a vector. The encoder refuses exactly the sizes that do not
/// fit its header fields (its error text is not stated); otherwise its file
/// has a 54-byte header starting with "BM", then every row padded to a
/// multiple of four bytes.
#[verifier::external_body]
fn bmp_encode(width: u32, height: u32, rgb: &[u8]) -> (r: Result<Vec<u8>, String>)
    requires
        rgb@.len() == width as int * height as int * 3,
    ensures
        r is Ok <==> bmp_encodable(width, height),
        r matches Ok(bytes) ==> {
            &&& bytes@ == bmp_encoding_of(width, height, rgb@)
            &&& bytes@.len() == 54 + bmp_stride(width as int) * height as int
            &&& bytes@[0] == 66u8
            &&& bytes@[1] == 77u8
        },
{
    let mut out: Vec<u8> = Vec::new();
    match image::codecs::bmp::BmpEncoder::new(&mut out).encode(rgb, width, height, image::ExtendedColorType::Rgb8) {
        Ok(()) => Ok(out),
        Err(error) => Err(error.to_string()),
    }
}

pub open spec fn encode_failure_prefix() -> Seq<char> {
    "Cannot encode provinces.bmp: "@
}

/// Encodes the province bitmap: the pixels as 24-bit BMP, or why they
/// cannot be encoded.
pub fn encode_provinces_bmp(width: u32, height: u32, rgb: &[u8]) -> (r: Result<Vec<u8>, String>)
    requires
        rgb@.len() == width as int * height as int * 3,
    ensures
        r is Ok <==> bmp_encodable(width, height),
        r matches Ok(bytes) ==> bytes@ == bmp_encoding_of(width, height, rgb@) && bytes@.len() == 54 + bmp_stride(
            width as int,
        ) * height as int,
        r matches Err(e) ==> e@.len() >= encode_failure_prefix().len() && e@.take(encode_failure_prefix().len() as int)
            == encode_failure_prefix(),
{
    match bmp_encode(width, height, rgb) {
        Ok(bytes) => Ok(bytes),
        Err(error) => {
            let mut message = String::from_str("Cannot encode provinces.bmp: ");
            let ghost prefix = message@;
            message.append(error.as_str());
            proof {
                assert(message@.take(prefix.len() as int) =~= prefix);
            }
            Err(message)
        },
    }
}

/// The size of a 24-bit BMP with a 54-byte header, if it fits in `u64`.
pub fn expected_bmp_size(width: u32, height: u32) -> (r: Option<u64>)
    ensures
        r == (if 54 + bmp_stride(width as int) * height as int <= u64::MAX {
            Some((54 + bmp_stride(width as int) * height as int) as u64)
        } else {
            None
        }),
{
    let stride: u64 = (width as u64 * 3 + 3) / 4 * 4;
    proof {
        assert(stride == bmp_stride(width as int));
    }
    match stride.checked_mul(height as u64) {
        Some(body) => body.checked_add(54),
        None => {
            proof {
                assert(stride * height >= 0) by (nonlinear_arith)
                    requires stride >= 0, height >= 0;
            }
            None
        },
    }
}

/// The header checks of a staged 24-bit `provinces.bmp` of the expected size:
/// the `BM` magic and a 54-byte minimum, a 40-byte DIB header, positive
/// dimensions, one plane, 24 bits, no compression, the expected width and
/// height, and a file size that matches both the header and the padded rows.
pub open spec fn bmp_header_result(b: Seq<u8>, expected_width: u32, expected_height: u32) -> Result<
    (),
    BmpHeaderError,
> {
    if b.len() < 54 || b[0] != 66 || b[1] != 77 {
        Err(BmpHeaderError::InvalidHeader)
    } else {
        let file_size = le_u32_spec(b, 2);
        let pixel_offset = le_u32_spec(b, 10);
        let dib_size = le_u32_spec(b, 14);
        let width = le_i32_spec(b, 18);
        let height = le_i32_spec(b, 22);
        let planes = le_u16_spec(b, 26);
        let bit_depth = le_u16_spec(b, 28);
        let compression = le_u32_spec(b, 30);
        if dib_size != 40 || width <= 0 || height <= 0 || planes != 1 || bit_depth != 24
            || compression != 0 {
            Err(
                BmpHeaderError::FormatMismatch {
                    dib_size,
                    width,
                    height,
                    planes,
                    bit_depth,
                    compression,
                },
            )
        } else if width as int != expected_width as int || height as int != expected_height as int {
            Err(
                BmpHeaderError::DimensionMismatch {
                    width,
                    height,
                    expected_width,
                    expected_height,
                },
            )
        } else {
            let expected_size = pixel_offset as int + bmp_stride(width as int) * height as int;
            if file_size as int != b.len() || expected_size != b.len() {
                Err(
                    BmpHeaderError::SizeMismatch {
                        header: file_size,
                        actual: b.len() as usize,
                        expected: expected_size as u64,
                    },
                )
            } else {
                Ok(())
            }
        }
    }
}

pub fn validate_bmp_header(bytes: &[u8], expected_width: u32, expected_height: u32) -> (r: Result<
    (),
    BmpHeaderError,
>)
    ensures
        r == bmp_header_result(bytes@, expected_width, expected_height),
{
    if bytes.len() < 54 || bytes[0] != 66 || bytes[1] != 77 {
        return Err(BmpHeaderError::InvalidHeader);
    }
    let file_size = le_u32(bytes, 2)?;
    let pixel_offset = le_u32(bytes, 10)?;
    let dib_size = le_u32(bytes, 14)?;
    let width = le_i32(bytes, 18)?;
    let height = le_i32(bytes, 22)?;
    let planes = le_u16(bytes, 26)?;
    let bit_depth = le_u16(bytes, 28)?;
    let compression = le_u32(bytes, 30)?;
    if dib_size != 40 || width <= 0 || height <= 0 || planes != 1 || bit_depth != 24 || compression
        != 0 {
        return Err(
            BmpHeaderError::FormatMismatch { dib_size, width, height, planes, bit_depth, compression },
        );
    }
    if width as u32 != expected_width || height as u32 != expected_height {
        return Err(
            BmpHeaderError::DimensionMismatch { width, height, expected_width, expected_height },
        );
    }
    let stride: u64 = (width as u64 * 3 + 3) / 4 * 4;
    proof {
        assert(stride <= 0x1_8000_0000);
        assert(stride * (height as u64) <= 0xc000_0000_0000_0000) by (nonlinear_arith)
            requires stride <= 0x1_8000_0000, 0 < height <= 0x7fff_ffff;
    }
    let expected_size: u64 = pixel_offset as u64 + stride * height as u64;
    if file_size as usize != bytes.len() || expected_size != bytes.len() as u64 {
        return Err(
            BmpHeaderError::SizeMismatch { header: file_size, actual: bytes.len(), expected: expected_size },
        );
    }
    Ok(())
}

/// Why a staged `provinces.bmp` was refused: its header, a decoder that
/// cannot read it back, or pixels other than the ones written.
#[derive(Debug, Clone, Copy, PartialEq, Eq, Structural)]
pub enum StagedBmpError {
    Header(BmpHeaderError),
    Unreadable,
    PixelMismatch,
}

/// The full check of a staged `provinces.bmp`: its header, then the image
/// decoded from it, which must have the expected size and pixels (red,
/// green, blue bytes, row by row).
pub open spec fn staged_bmp_result(
    b: Seq<u8>,
    expected_width: u32,
    expected_height: u32,
    expected_pixels: Seq<u8>,
) -> Result<(), StagedBmpError> {
    match bmp_header_result(b, expected_width, expected_height) {
        Err(e) => Err(StagedBmpError::Header(e)),
        Ok(()) => match (bmp_header_of(b), bmp_rgb_of(b)) {
            (Some((w, h, _)), Some(raw)) => if w == expected_width && h == expected_height && raw
                == expected_pixels {
                Ok(())
            } else {
                Err(StagedBmpError::PixelMismatch)
            },
            _ => Err(StagedBmpError::Unreadable),
        },
    }
}

/// The sentence reported for a refused staged `provinces.bmp`.
pub open spec fn staged_bmp_message(e: StagedBmpError) -> Seq<char> {
    match e {
        StagedBmpError::Header(h) => match h {
            BmpHeaderError::InvalidHeader => "Staged provinces.bmp has an invalid BMP header."@,
            BmpHeaderError::Truncated => "Truncated BMP header."@,
            BmpHeaderError::FormatMismatch { dib_size, width, height, planes, bit_depth, compression } =>
                "Staged provinces.bmp format mismatch: DIB "@ + decimal(dib_size as nat) + ", "@
                + signed_decimal(width as int) + "x"@ + signed_decimal(height as int) + ", planes "@
                + decimal(planes as nat) + ", "@ + decimal(bit_depth as nat) + "-bit, compression "@
                + decimal(compression as nat) + "."@,
            BmpHeaderError::DimensionMismatch { width, height, expected_width, expected_height } =>
                "Staged provinces.bmp is "@ + signed_decimal(width as int) + "x"@ + signed_decimal(
                height as int,
            ) + ", expected "@ + decimal(expected_width as nat) + "x"@ + decimal(
                expected_height as nat,
            ) + "."@,
            BmpHeaderError::SizeMismatch { header, actual, expected } =>
                "Staged provinces.bmp size mismatch: header "@ + decimal(header as nat) + ", actual "@
                + decimal(actual as nat) + ", expected "@ + decimal(expected as nat) + "."@,
            BmpHeaderError::SizeOverflow => "BMP size overflow"@,
        },
        StagedBmpError::Unreadable => "Staged provinces.bmp cannot be reloaded."@,
        StagedBmpError::PixelMismatch =>
            "Staged provinces.bmp pixels do not match the working province model."@,
    }
}

impl StagedBmpError {
    /// The refusal as a sentence.
    pub fn message(&self) -> (r: String)
        ensures
            r@ == staged_bmp_message(*self),
    {
        match self {
            StagedBmpError::Header(h) => match h {
                BmpHeaderError::InvalidHeader => String::from_str(
                    "Staged provinces.bmp has an invalid BMP header.",
                ),
                BmpHeaderError::Truncated => String::from_str("Truncated BMP header."),
                BmpHeaderError::FormatMismatch {
                    dib_size,
                    width,
                    height,
                    planes,
                    bit_depth,
                    compression,
                } => {
                    let mut s = String::from_str("Staged provinces.bmp format mismatch: DIB ");
                    push_decimal(&mut s, *dib_size as u64);
                    s.append(", ");
                    push_signed_decimal(&mut s, *width as i64);
                    s.append("x");
                    push_signed_decimal(&mut s, *height as i64);
                    s.append(", planes ");
                    push_decimal(&mut s, *planes as u64);
                    s.append(", ");
                    push_decimal(&mut s, *bit_depth as u64);
                    s.append("-bit, compression ");
                    push_decimal(&mut s, *compression as u64);
                    s.append(".");
                    s
                },
                BmpHeaderError::DimensionMismatch { width, height, expected_width, expected_height } => {
                    let mut s = String::from_str("Staged provinces.bmp is ");
                    push_signed_decimal(&mut s, *width as i64);
                    s.append("x");
                    push_signed_decimal(&mut s, *height as i64);
                    s.append(", expected ");
                    push_decimal(&mut s, *expected_width as u64);
                    s.append("x");
                    push_decimal(&mut s, *expected_height as u64);
                    s.append(".");
                    s
                },
                BmpHeaderError::SizeMismatch { header, actual, expected } => {
                    let mut s = String::from_str("Staged provinces.bmp size mismatch: header ");
                    push_decimal(&mut s, *header as u64);
                    s.append(", actual ");
                    push_decimal(&mut s, *actual as u64);
                    s.append(", expected ");
                    push_decimal(&mut s, *expected);
                    s.append(".");
                    s
                },
                BmpHeaderError::SizeOverflow => String::from_str("BMP size overflow"),
            },
            StagedBmpError::Unreadable => String::from_str("Staged provinces.bmp cannot be reloaded."),
            StagedBmpError::PixelMismatch => String::from_str(
                "Staged provinces.bmp pixels do not match the working province model.",
            ),
        }
    }
}

fn same_bytes(a: &Vec<u8>, b: &Vec<u8>) -> (r: bool)
    ensures
        r == (a@ == b@),
{
    if a.len() != b.len() {
        return false;
    }
    let mut i: usize = 0;
    while i < a.len()
        invariant
            i <= a@.len(),
            a@.len() == b@.len(),
            forall|k: int| 0 <= k < i ==> a@[k] == b@[k],
        decreases a.len() - i,
    {
        if a[i] != b[i] {
            return false;
        }
        i = i + 1;
    }
    assert(a@ =~= b@);
    true
}

/// Checks a staged `provinces.bmp` against the image it was written from:
/// the header first, then the decoded size and pixels.
pub fn validate_bmp(
    bytes: &[u8],
    expected_width: u32,
    expected_height: u32,
    expected_pixels: &Vec<u8>,
) -> (r: Result<(), StagedBmpError>)
    ensures
        r == staged_bmp_result(bytes@, expected_width, expected_height, expected_pixels@),
{
    match validate_bmp_header(bytes, expected_width, expected_height) {
        Err(e) => {
            return Err(StagedBmpError::Header(e));
        },
        Ok(()) => {},
    }
    let header = bmp_header(bytes);
    let pixels = bmp_rgb(bytes);
    match (header, pixels) {
        (Some((w, h, _)), Some(raw)) => {
            if w == expected_width && h == expected_height && same_bytes(&raw, expected_pixels) {
                Ok(())
            } else {
                Err(StagedBmpError::PixelMismatch)
            }
        },
        _ => Err(StagedBmpError::Unreadable),
    }
}

/// Why staged definitions were refused against the staged bitmap colors.
#[derive(Debug, Clone, Copy, PartialEq, Eq, Structural)]
pub enum DefinitionColorError {
    DuplicateIds,
    DuplicateColors,
    ColorMismatch,
}

/// A color as one integer key, `0xRRGGBB`.
pub open spec fn color_key(color: Color) -> u32 {
    (color[0] as int * 65536 + color[1] as int * 256 + color[2] as int) as u32
}

fn color_key_exec(color: Color) -> (r: u32)
    ensures
        r == color_key(color),
{
    color[0] as u32 * 65536 + color[1] as u32 * 256 + color[2] as u32
}

proof fn lemma_color_key_injective(a: Color, b: Color)
    requires
        color_key(a) == color_key(b),
    ensures
        a == b,
{
    assert(a =~= b);
}

pub open spec fn definition_ids(definitions: Seq<(u32, Color)>) -> Seq<u32> {
    definitions.map_values(|d: (u32, Color)| d.0)
}

pub open spec fn definition_colors(definitions: Seq<(u32, Color)>) -> Seq<Color> {
    definitions.map_values(|d: (u32, Color)| d.1)
}

/// Definitions need distinct IDs, then distinct colors, and then exactly the
/// colors that the bitmap's pixels use.
pub open spec fn definition_colors_result(definitions: Seq<(u32, Color)>, pixels: Seq<Color>) -> Result<(), DefinitionColorError> {
    if !definition_ids(definitions).no_duplicates() {
        Err(DefinitionColorError::DuplicateIds)
    } else if !definition_colors(definitions).no_duplicates() {
        Err(DefinitionColorError::DuplicateColors)
    } else if definition_colors(definitions).to_set() != pixels.to_set() {
        Err(DefinitionColorError::ColorMismatch)
    } else {
        Ok(())
    }
}

/// Inserts the keys of `items` into a set, answering whether any key repeated.
fn insert_all_u32(items: &Vec<u32>) -> (r: (BTreeSet<u32>, bool))
    ensures
        r.0@ == items@.to_set(),
        r.1 == !items@.no_duplicates(),
{
    let mut set: BTreeSet<u32> = BTreeSet::new();
    let mut repeated = false;
    let mut i: usize = 0;
    while i < items.len()
        invariant
            i <= items@.len(),
            set@ == items@.take(i as int).to_set(),
            repeated == !items@.take(i as int).no_duplicates(),
        decreases items@.len() - i,
    {
        let ghost prefix = items@.take(i as int);
        let ghost next = items@.take(i + 1);
        proof {
            assert(next =~= prefix.push(items@[i as int]));
            crate::facts::lemma_push_to_set(prefix, items@[i as int]);
        }
        let fresh = set.insert(items[i]);
        proof {
            if !fresh {
                let k = choose|k: int| 0 <= k < prefix.len() && prefix[k] == items@[i as int];
                assert(next[k] == next[i as int]);
            } else if !repeated {
                assert forall|a: int, b: int| 0 <= a < next.len() && 0 <= b < next.len() && a != b implies next[a]
                    != next[b] by {
                    if a == i as int {
                        assert(prefix.to_set().contains(next[b]));
                    } else if b == i as int {
                        assert(prefix.to_set().contains(next[a]));
                    }
                }
            } else {
                let (a, b) = choose|a: int, b: int| 0 <= a < prefix.len() && 0 <= b < prefix.len() && a != b && prefix[a] == prefix[b];
                assert(next[a] == next[b]);
            }
        }
        repeated = repeated || !fresh;
        i = i + 1;
    }
    proof {
        assert(items@.take(items@.len() as int) =~= items@);
    }
    (set, repeated)
}

pub fn validate_definition_colors(definitions: &[(u32, Color)], pixels: &[Color]) -> (r: Result<
    (),
    DefinitionColorError,
>)
    ensures
        r == definition_colors_result(definitions@, pixels@),
{
    let mut ids: Vec<u32> = Vec::new();
    let mut keys: Vec<u32> = Vec::new();
    let mut i: usize = 0;
    while i < definitions.len()
        invariant
            i <= definitions@.len(),
            ids@ == definition_ids(definitions@.take(i as int)),
            keys@ == definition_colors(definitions@.take(i as int)).map_values(|c: Color| color_key(c)),
        decreases definitions@.len() - i,
    {
        ids.push(definitions[i].0);
        keys.push(color_key_exec(definitions[i].1));
        proof {
            assert(definitions@.take(i + 1).drop_last() =~= definitions@.take(i as int));
            assert(ids@ =~= definition_ids(definitions@.take(i + 1)));
            assert(keys@ =~= definition_colors(definitions@.take(i + 1)).map_values(|c: Color| color_key(c)));
        }
        i = i + 1;
    }
    proof {
        assert(definitions@.take(definitions@.len() as int) =~= definitions@);
    }
    let ghost colors = definition_colors(definitions@);
    let (_, repeated_ids) = insert_all_u32(&ids);
    if repeated_ids {
        assert(!definition_ids(definitions@).no_duplicates());
        return Err(DefinitionColorError::DuplicateIds);
    }
    assert(definition_ids(definitions@).no_duplicates());
    let (defined, repeated_colors) = insert_all_u32(&keys);
    proof {
        if !keys@.no_duplicates() {
            let (a, b) = choose|a: int, b: int| 0 <= a < keys@.len() && 0 <= b < keys@.len() && a != b && keys@[a] == keys@[b];
            lemma_color_key_injective(colors[a], colors[b]);
        }
        if !colors.no_duplicates() {
            let (a, b) = choose|a: int, b: int| 0 <= a < colors.len() && 0 <= b < colors.len() && a != b && colors[a] == colors[b];
            assert(keys@[a] == keys@[b]);
        }
        if colors.no_duplicates() {
            assert forall|a: int, b: int| 0 <= a < keys@.len() && 0 <= b < keys@.len() && a != b implies keys@[a]
                != keys@[b] by {
                if keys@[a] == keys@[b] {
                    lemma_color_key_injective(colors[a], colors[b]);
                }
            }
        }
    }
    if repeated_colors {
        assert(!colors.no_duplicates());
        return Err(DefinitionColorError::DuplicateColors);
    }
    assert(colors.no_duplicates());
    let mut used: BTreeSet<u32> = BTreeSet::new();
    let mut all_defined = true;
    let mut j: usize = 0;
    while j < pixels.len()
        invariant
            j <= pixels@.len(),
            defined@ == keys@.to_set(),
            keys@ == colors.map_values(|c: Color| color_key(c)),
            used@ == pixels@.take(j as int).map_values(|c: Color| color_key(c)).to_set(),
            all_defined == (forall|k: int| 0 <= k < j ==> colors.to_set().contains(#[trigger] pixels@[k])),
        decreases pixels@.len() - j,
    {
        let key = color_key_exec(pixels[j]);
        proof {
            let prefix = pixels@.take(j as int).map_values(|c: Color| color_key(c));
            assert(pixels@.take(j + 1).map_values(|c: Color| color_key(c)) =~= prefix.push(key));
            crate::facts::lemma_push_to_set(prefix, key);
            if defined@.contains(key) {
                let k = choose|k: int| 0 <= k < keys@.len() && keys@[k] == key;
                lemma_color_key_injective(colors[k], pixels@[j as int]);
                assert(colors.to_set().contains(pixels@[j as int]));
            } else {
                if colors.to_set().contains(pixels@[j as int]) {
                    let k = choose|k: int| 0 <= k < colors.len() && colors[k] == pixels@[j as int];
                    assert(keys@[k] == key);
                }
            }
        }
        if !defined.contains(&key) {
            all_defined = false;
        }
        used.insert(key);
        j = j + 1;
    }
    proof {
        assert(pixels@.take(pixels@.len() as int) =~= pixels@);
    }
    let mut all_used = true;
    let mut k: usize = 0;
    while k < keys.len()
        invariant
            k <= keys@.len(),
            keys@ == colors.map_values(|c: Color| color_key(c)),
            used@ == pixels@.map_values(|c: Color| color_key(c)).to_set(),
            all_used == (forall|m: int| 0 <= m < k ==> pixels@.to_set().contains(#[trigger] colors[m])),
        decreases keys@.len() - k,
    {
        proof {
            if used@.contains(keys@[k as int]) {
                let p = choose|p: int| 0 <= p < pixels@.len() && color_key(pixels@[p]) == keys@[k as int];
                lemma_color_key_injective(pixels@[p], colors[k as int]);
                assert(pixels@.to_set().contains(colors[k as int]));
            } else {
                if pixels@.to_set().contains(colors[k as int]) {
                    let p = choose|p: int| 0 <= p < pixels@.len() && pixels@[p] == colors[k as int];
                    assert(pixels@.map_values(|c: Color| color_key(c))[p] == keys@[k as int]);
                }
            }
        }
        if !used.contains(&keys[k]) {
            all_used = false;
        }
        k = k + 1;
    }
    proof {
        let a = colors.to_set();
        let b = pixels@.to_set();
        if all_defined && all_used {
            assert forall|c: Color| a.contains(c) <==> b.contains(c) by {
                if a.contains(c) {
                    let m = choose|m: int| 0 <= m < colors.len() && colors[m] == c;
                }
                if b.contains(c) {
                    let m = choose|m: int| 0 <= m < pixels@.len() && pixels@[m] == c;
                }
            }
            assert(a =~= b);
        } else if !all_defined {
            let m = choose|m: int| 0 <= m < pixels@.len() && !a.contains(#[trigger] pixels@[m]);
            assert(b.contains(pixels@[m]));
        } else {
            let m = choose|m: int| 0 <= m < keys@.len() && !b.contains(#[trigger] colors[m]);
            assert(a.contains(colors[m]));
        }
    }
    if all_defined && all_used {
        assert(colors.to_set() == pixels@.to_set());
        Ok(())
    } else {
        assert(colors.to_set() != pixels@.to_set());
        Err(DefinitionColorError::ColorMismatch)
    }
}

} // verus!
