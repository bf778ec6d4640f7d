use crate::converter::{
    containing_dir, containing_dir_of, output_path, output_path_for, ConversionConfig,
    ConversionResult,
};
use crate::exif::{scan_jpeg_exif, jpeg_exif, ExifScan, SpecExifScan};
use crate::picture::{
    decoded_dimensions, load_picture, resize_if_needed, resized_dimensions, target_dimensions,
    Picture,
};
use crate::text::concat_str;
use crate::webp_exif::{
    exif_tag, inject_exif_into_webp, is_webp_container, lemma_exif_chunk_layout, riff_tag, webp_tag,
    with_exif_chunk,
};
use vstd::prelude::*;

verus! {

/// Where a conversion stands.
pub enum Stage {
    /// Waiting for the source file's bytes.
    Reading,
    /// Waiting for the WebP encoding of the decoded (and possibly scaled) picture.
    Encoding { exif: Option<Vec<u8>>, original_size: u64 },
    /// Waiting for the output file to be written.
    Writing { output_path: String, original_size: u64, output_size: u64 },
    /// The conversion has reported its result.
    Done,
}

/// One file's conversion to WebP, driven step by step: each step takes the outcome of the
/// previous action and says what to do next.
pub struct ConversionJob {
    pub input: String,
    pub source_root: String,
    pub output_dir: String,
    pub config: ConversionConfig,
    pub stage: Stage,
}

/// What the conversion asks its runner to do.
pub enum ConversionAction {
    /// Read the whole file at `path`.
    ReadSource { path: String },
    /// Encode `picture` as lossy WebP with the given quality.
    EncodeWebp { picture: Picture, quality: u8 },
    /// Create `dir` (and its ancestors) when given, write `bytes` to `path`, then copy the
    /// access and modification times of `timestamps_from` onto `path`, ignoring failure there.
    WriteOutput { dir: Option<String>, path: String, bytes: Vec<u8>, timestamps_from: String },
    /// The conversion is over.
    Finish(ConversionResult),
}

/// Which part of writing the output failed.
pub enum WriteFailure {
    CreateDir,
    Write,
}

/// The outcome of the action a conversion asked for.
pub enum ConversionEvent {
    /// The source bytes, or `None` when the file could not be read.
    SourceRead(Option<Vec<u8>>),
    /// The encoded WebP bytes, or the encoder's error message.
    Encoded(Result<Vec<u8>, String>),
    /// Whether the output was written.
    OutputWritten(Result<(), WriteFailure>),
}

/// The text of a failure message: a fixed prefix and the subject.
pub open spec fn message(prefix: Seq<char>, subject: Seq<char>) -> Seq<char> {
    prefix + subject
}

/// The report on a failed conversion of `input`.
pub open spec fn is_failure(r: ConversionResult, input: Seq<char>, error: Seq<char>) -> bool {
    &&& !r.success
    &&& r.input@ == input
    &&& r.output@ == Seq::<char>::empty()
    &&& r.original_size is None
    &&& r.output_size is None
    &&& r.error is Some && r.error->0@ == error
}

/// The report on a successful conversion.
pub open spec fn is_success(
    r: ConversionResult,
    input: Seq<char>,
    output: Seq<char>,
    original_size: u64,
    output_size: u64,
) -> bool {
    &&& r.success
    &&& r.input@ == input
    &&& r.output@ == output
    &&& r.original_size == Some(original_size)
    &&& r.output_size == Some(output_size)
    &&& r.error is None
}

/// The dimensions of a `d` picture after scaling it to fit `max` (unchanged when it fits).
pub open spec fn fitted_dimensions(d: (u32, u32), max: u32) -> (u32, u32) {
    if d.0 <= max && d.1 <= max {
        d
    } else {
        let t = target_dimensions(d.0, d.1, max);
        resized_dimensions(d.0, d.1, t.0, t.1)
    }
}

/// The bytes written for an encoded WebP file and the EXIF payload of its source: with an
/// `EXIF` chunk appended when there is a payload and the encoding is a WebP container,
/// otherwise the encoding unchanged.
pub open spec fn final_webp(webp: Seq<u8>, exif: Option<Seq<u8>>) -> Seq<u8> {
    match exif {
        Some(e) => if is_webp_container(webp) {
            with_exif_chunk(webp, e)
        } else {
            webp
        },
        None => webp,
    }
}

/// The EXIF payload found in source bytes, if any.
pub open spec fn exif_payload(bytes: Seq<u8>) -> Option<Seq<u8>> {
    match jpeg_exif(bytes) {
        SpecExifScan::Payload(p) => Some(p),
        _ => None,
    }
}

/// The view of an optional byte vector.
pub open spec fn opt_bytes(v: Option<Vec<u8>>) -> Option<Seq<u8>> {
    match v {
        Some(b) => Some(b@),
        None => None,
    }
}

/// Whether `event` answers the action that a job in `stage` asked for.
pub open spec fn answers(stage: Stage, event: ConversionEvent) -> bool {
    match (stage, event) {
        (Stage::Reading, ConversionEvent::SourceRead(_)) => true,
        (Stage::Encoding { .. }, ConversionEvent::Encoded(_)) => true,
        (Stage::Writing { .. }, ConversionEvent::OutputWritten(_)) => true,
        _ => false,
    }
}

/// A job that keeps its file, directories and settings and moved to `stage`.
pub open spec fn same_job(a: ConversionJob, b: ConversionJob) -> bool {
    &&& a.input@ == b.input@
    &&& a.source_root@ == b.source_root@
    &&& a.output_dir@ == b.output_dir@
    &&& a.config == b.config
}

/// The report on a conversion of `input` from the outcome of its steps: the output path and
/// the sizes read and written on success, or the error message on failure.
pub fn conversion_report(
    input: &str,
    outcome: Result<(String, u64, u64), String>,
) -> (r: ConversionResult)
    ensures
        match outcome {
            Ok((path, original_size, output_size)) => is_success(
                r,
                input@,
                path@,
                original_size,
                output_size,
            ),
            Err(e) => is_failure(r, input@, e@),
        },
{
    match outcome {
        Ok((path, original_size, output_size)) => ConversionResult {
            success: true,
            input: input.to_owned(),
            output: path,
            original_size: Some(original_size),
            output_size: Some(output_size),
            error: None,
        },
        Err(e) => ConversionResult {
            success: false,
            input: input.to_owned(),
            output: String::new(),
            original_size: None,
            output_size: None,
            error: Some(e),
        },
    }
}

/// Starts the conversion of one image to WebP: the result goes into `output_dir`, mirroring
/// the directories of `input` below `source_root`. The first action reads the source file.
pub fn convert_image(input: &str, source_root: &str, output_dir: &str, config: &ConversionConfig)
    -> (r: (ConversionJob, ConversionAction))
    ensures
        r.0.input@ == input@,
        r.0.source_root@ == source_root@,
        r.0.output_dir@ == output_dir@,
        r.0.config == *config,
        r.0.stage is Reading,
        r.1 matches ConversionAction::ReadSource { path } && path@ == input@,
{
    let job = ConversionJob {
        input: input.to_owned(),
        source_root: source_root.to_owned(),
        output_dir: output_dir.to_owned(),
        config: *config,
        stage: Stage::Reading,
    };
    (job, ConversionAction::ReadSource { path: input.to_owned() })
}

/// The view of an optional string.
pub open spec fn opt_chars(v: Option<String>) -> Option<Seq<char>> {
    match v {
        Some(s) => Some(s@),
        None => None,
    }
}

/// What a job answered with `event` moves to and asks for next.
pub open spec fn advanced(
    job: ConversionJob,
    event: ConversionEvent,
    next: ConversionJob,
    action: ConversionAction,
) -> bool {
    let input = job.input@;
    match (job.stage, event) {
        (Stage::Reading, ConversionEvent::SourceRead(None)) => {
            &&& next.stage is Done
            &&& action matches ConversionAction::Finish(res)
            &&& is_failure(res, input, message("failed to read "@, input))
        },
        (
            Stage::Reading,
            ConversionEvent::SourceRead(Some(bytes)),
        ) => match decoded_dimensions(bytes@) {
            None => {
                &&& next.stage is Done
                &&& action matches ConversionAction::Finish(res)
                &&& is_failure(res, input, message("failed to decode "@, input))
            },
            Some(d) => {
                &&& next.stage matches Stage::Encoding { exif, original_size }
                &&& opt_bytes(exif) == exif_payload(bytes@)
                &&& original_size == bytes@.len()
                &&& action matches ConversionAction::EncodeWebp { picture, quality }
                &&& picture@ == fitted_dimensions(d, job.config.max_size)
                &&& quality == job.config.quality
            },
        },
        (Stage::Encoding { exif, original_size }, ConversionEvent::Encoded(Err(msg))) => {
            &&& next.stage is Done
            &&& action matches ConversionAction::Finish(res)
            &&& is_failure(res, input, message("webp encoder error: "@, msg@))
        },
        (Stage::Encoding { exif, original_size }, ConversionEvent::Encoded(Ok(webp))) => {
            let out = output_path(input, job.source_root@, job.output_dir@);
            let final_bytes = final_webp(webp@, opt_bytes(exif));
            &&& next.stage matches Stage::Writing {
                output_path: p,
                original_size: os,
                output_size,
            }
            &&& p@ == out
            &&& os == original_size
            &&& output_size == final_bytes.len()
            &&& action matches ConversionAction::WriteOutput { dir, path, bytes, timestamps_from }
            &&& opt_chars(dir) == containing_dir(out)
            &&& path@ == out
            &&& bytes@ == final_bytes
            &&& timestamps_from@ == input
        },
        (
            Stage::Writing { output_path, original_size, output_size },
            ConversionEvent::OutputWritten(Ok(())),
        ) => {
            &&& next.stage is Done
            &&& action matches ConversionAction::Finish(res)
            &&& is_success(res, input, output_path@, original_size, output_size)
        },
        (
            Stage::Writing { output_path, original_size, output_size },
            ConversionEvent::OutputWritten(Err(WriteFailure::CreateDir)),
        ) => {
            let dir = match containing_dir(output_path@) {
                Some(d) => d,
                None => Seq::<char>::empty(),
            };
            &&& next.stage is Done
            &&& action matches ConversionAction::Finish(res)
            &&& is_failure(res, input, message("failed to create dir "@, dir))
        },
        (
            Stage::Writing { output_path, original_size, output_size },
            ConversionEvent::OutputWritten(Err(WriteFailure::Write)),
        ) => {
            &&& next.stage is Done
            &&& action matches ConversionAction::Finish(res)
            &&& is_failure(res, input, message("failed to write "@, output_path@))
        },
        _ => false,
    }
}

/// The bytes to write for an encoded WebP file (see [`final_webp`]).
pub fn finish_webp(webp: Vec<u8>, exif: Option<Vec<u8>>) -> (r: Vec<u8>)
    ensures
        r@ == final_webp(webp@, opt_bytes(exif)),
{
    match exif {
        Some(e) => match inject_exif_into_webp(webp.as_slice(), e.as_slice()) {
            Ok(out) => out,
            Err(_) => webp,
        },
        None => webp,
    }
}

impl ConversionJob {
    /// Takes the outcome of the action this job asked for and says what comes next.
    ///
    /// Source bytes whose APP1 segment declares a length below two carry no usable EXIF
    /// payload; they are converted (or fail to decode) like bytes without one.
    pub fn advance(self, event: ConversionEvent) -> (r: (ConversionJob, ConversionAction))
        requires
            answers(self.stage, event),
        ensures
            same_job(self, r.0),
            advanced(self, event, r.0, r.1),
    {
        let ConversionJob { input, source_root, output_dir, config, stage } = self;
        match (stage, event) {
            (Stage::Reading, ConversionEvent::SourceRead(None)) => {
                let res = conversion_report(
                    input.as_str(),
                    Err(concat_str("failed to read ", input.as_str())),
                );
                (
                    ConversionJob { input, source_root, output_dir, config, stage: Stage::Done },
                    ConversionAction::Finish(res),
                )
            },
            (Stage::Reading, ConversionEvent::SourceRead(Some(bytes))) => {
                let exif = match scan_jpeg_exif(bytes.as_slice()) {
                    ExifScan::Payload(p) => Some(p),
                    _ => None,
                };
                let original_size = bytes.len() as u64;
                match load_picture(bytes.as_slice()) {
                    Err(_) => {
                        let res = conversion_report(
                    input.as_str(),
                    Err(concat_str("failed to decode ", input.as_str())),
                );
                        (
                    ConversionJob { input, source_root, output_dir, config, stage: Stage::Done },
                    ConversionAction::Finish(res),
                )
                    },
                    Ok(picture) => {
                        let picture = resize_if_needed(picture, config.max_size);
                        let quality = config.quality;
                        (
                            ConversionJob {
                                input,
                                source_root,
                                output_dir,
                                config,
                                stage: Stage::Encoding { exif, original_size },
                            },
                            ConversionAction::EncodeWebp { picture, quality },
                        )
                    },
                }
            },
            (Stage::Encoding { exif, original_size }, ConversionEvent::Encoded(Err(msg))) => {
                let res = conversion_report(
                    input.as_str(),
                    Err(concat_str("webp encoder error: ", msg.as_str())),
                );
                (
                    ConversionJob { input, source_root, output_dir, config, stage: Stage::Done },
                    ConversionAction::Finish(res),
                )
            },
            (Stage::Encoding { exif, original_size }, ConversionEvent::Encoded(Ok(webp))) => {
                let path = output_path_for(
                    input.as_str(),
                    source_root.as_str(),
                    output_dir.as_str(),
                );
                let bytes = finish_webp(webp, exif);
                let output_size = bytes.len() as u64;
                let dir = containing_dir_of(path.as_str());
                let action = ConversionAction::WriteOutput {
                    dir,
                    path: path.clone(),
                    bytes,
                    timestamps_from: input.clone(),
                };
                (
                    ConversionJob {
                        input,
                        source_root,
                        output_dir,
                        config,
                        stage: Stage::Writing { output_path: path, original_size, output_size },
                    },
                    action,
                )
            },
            (
            Stage::Writing { output_path, original_size, output_size },
            ConversionEvent::OutputWritten(Ok(())),
        ) => {
                let res = conversion_report(
                    input.as_str(),
                    Ok((output_path, original_size, output_size)),
                );
                (
                    ConversionJob { input, source_root, output_dir, config, stage: Stage::Done },
                    ConversionAction::Finish(res),
                )
            },
            (
            Stage::Writing { output_path, original_size, output_size },
            ConversionEvent::OutputWritten(Err(WriteFailure::CreateDir)),
        ) => {
                let dir = match containing_dir_of(output_path.as_str()) {
                    Some(d) => d,
                    None => String::new(),
                };
                let res = conversion_report(
                    input.as_str(),
                    Err(concat_str("failed to create dir ", dir.as_str())),
                );
                (
                    ConversionJob { input, source_root, output_dir, config, stage: Stage::Done },
                    ConversionAction::Finish(res),
                )
            },
            (
            Stage::Writing { output_path, original_size, output_size },
            ConversionEvent::OutputWritten(Err(WriteFailure::Write)),
        ) => {
                let res = conversion_report(
                    input.as_str(),
                    Err(concat_str("failed to write ", output_path.as_str())),
                );
                (
                    ConversionJob { input, source_root, output_dir, config, stage: Stage::Done },
                    ConversionAction::Finish(res),
                )
            },
            (stage, _) => {
                proof {
                    assert(false);
                }
                let res = conversion_report(input.as_str(), Err(String::new()));
                (
                    ConversionJob { input, source_root, output_dir, config, stage },
                    ConversionAction::Finish(res),
                )
            },
        }
    }
}

/// The EXIF payload of a JPEG source reappears in the written file: when the source decodes
/// and the encoder returns a WebP container, the bytes to write keep the container's header and
/// chunks and end in an `EXIF` chunk carrying exactly the source's payload; their timestamps are
/// taken from the source.
pub proof fn lemma_exif_carried_into_output(
    start: ConversionJob,
    source: Vec<u8>,
    encoding: ConversionJob,
    encode_action: ConversionAction,
    webp: Vec<u8>,
    writing: ConversionJob,
    write_action: ConversionAction,
    payload: Seq<u8>,
)
    requires
        start.stage is Reading,
        advanced(start, ConversionEvent::SourceRead(Some(source)), encoding, encode_action),
        same_job(start, encoding),
        jpeg_exif(source@) == SpecExifScan::Payload(payload),
        decoded_dimensions(source@) is Some,
        advanced(encoding, ConversionEvent::Encoded(Ok(webp)), writing, write_action),
        is_webp_container(webp@),
    ensures
        write_action matches ConversionAction::WriteOutput { bytes, timestamps_from, .. } && {
            let n = webp@.len() as int;
            &&& bytes@.subrange(0, 4) == riff_tag()
            &&& bytes@.subrange(8, 12) == webp_tag()
            &&& bytes@.subrange(8, n) == webp@.subrange(8, n)
            &&& bytes@.subrange(n, n + 4) == exif_tag()
            &&& bytes@.subrange(n + 8, n + 8 + payload.len()) == payload
            &&& timestamps_from@ == start.input@
        },
{
    lemma_exif_chunk_layout(webp@, payload);
}

/// A conversion that reads its source, decodes it, gets an encoding and writes the output
/// reports success, the written path, the size of the bytes read and the size of the bytes
/// written.
pub proof fn lemma_success_report(
    start: ConversionJob,
    source: Vec<u8>,
    encoding: ConversionJob,
    encode_action: ConversionAction,
    webp: Vec<u8>,
    writing: ConversionJob,
    write_action: ConversionAction,
    done: ConversionJob,
    finish: ConversionAction,
)
    requires
        start.stage is Reading,
        advanced(start, ConversionEvent::SourceRead(Some(source)), encoding, encode_action),
        same_job(start, encoding),
        decoded_dimensions(source@) is Some,
        advanced(encoding, ConversionEvent::Encoded(Ok(webp)), writing, write_action),
        same_job(encoding, writing),
        advanced(writing, ConversionEvent::OutputWritten(Ok(())), done, finish),
    ensures
        write_action matches ConversionAction::WriteOutput { path, bytes, .. }
            && finish matches ConversionAction::Finish(res) && {
            &&& res.success
            &&& res.input@ == start.input@
            &&& res.output@ == path@
            &&& path@ == output_path(start.input@, start.source_root@, start.output_dir@)
            &&& res.original_size == Some(source@.len() as u64)
            &&& res.output_size == Some(bytes@.len() as u64)
            &&& res.error is None
        },
{
}

} // verus!
