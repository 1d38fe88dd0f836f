//! Bounded previews of a file's content: base64 for binary files, decoded
//! text with a detected character encoding for text files.
use vstd::prelude::*;
use vstd::string::*;
use crate::errors::{ErrorModel, NativeError};
use crate::meta::FileMeta;
use crate::mime::{BytesRead, ClassifierCache};

verus! {

/// Size of the chunks in which a preview is read.
pub const STREAM_CHUNK_SIZE: usize = 262144;

/// Most bytes a binary preview holds.
pub const MAX_BINARY_CONTENT_BYTES: usize = 3145728;

/// Most bytes a text preview holds.
pub const MAX_TEXT_CONTENT_BYTES: usize = 5242880;

/// Bytes read from the head of a file to detect its encoding.
pub const ENCODING_SAMPLE_BYTES: usize = 524288;

/// Why a file was left out.
#[derive(Debug, Clone, Copy, PartialEq, Eq, Structural)]
pub enum ExclusionReason {
    /// A binary file larger than the preview cap.
    BinaryTooLarge,
    /// A file larger than the size ceiling of the run.
    FileSize,
    /// A binary or image file in a run that does not include them.
    BinaryOrImage,
}

impl ExclusionReason {
    /// The reason as it stands on the wire.
    pub open spec fn label(self) -> Seq<char> {
        match self {
            ExclusionReason::BinaryTooLarge => "binary_too_large"@,
            ExclusionReason::FileSize => "file_size"@,
            ExclusionReason::BinaryOrImage => "binary_or_image"@,
        }
    }

    /// The reason as it stands on the wire.
    pub fn as_str(&self) -> (s: &'static str)
        ensures
            s@ == self.label(),
    {
        match self {
            ExclusionReason::BinaryTooLarge => "binary_too_large",
            ExclusionReason::FileSize => "file_size",
            ExclusionReason::BinaryOrImage => "binary_or_image",
        }
    }
}

/// What is known of a file's content: exactly one of four kinds.
#[derive(Debug, Clone)]
pub enum FileInfo {
    /// Decoded text.
    Text { encoding: String, content: String, preview_bytes: usize, truncated: bool },
    /// Base64 of the first bytes.
    Binary { content: String, preview_bytes: usize, truncated: bool },
    /// Left out, with the reason and, where it is the cause, the size.
    Excluded { reason: ExclusionReason, size: Option<u64> },
    /// The file could not be inspected.
    Error { content: String, exception_type: String, exception_message: String },
}

/// The mathematical value of a [`FileInfo`].
pub ghost enum InfoModel {
    Text { encoding: Seq<char>, content: Seq<char>, preview_bytes: nat, truncated: bool },
    Binary { content: Seq<char>, preview_bytes: nat, truncated: bool },
    Excluded { reason: ExclusionReason, size: Option<u64> },
    Error { content: Seq<char>, exception_type: Seq<char>, exception_message: Seq<char> },
}

impl View for FileInfo {
    type V = InfoModel;

    open spec fn view(&self) -> InfoModel {
        match *self {
            FileInfo::Text { encoding, content, preview_bytes, truncated } => InfoModel::Text {
                encoding: encoding@,
                content: content@,
                preview_bytes: preview_bytes as nat,
                truncated,
            },
            FileInfo::Binary { content, preview_bytes, truncated } => InfoModel::Binary {
                content: content@,
                preview_bytes: preview_bytes as nat,
                truncated,
            },
            FileInfo::Excluded { reason, size } => InfoModel::Excluded { reason, size },
            FileInfo::Error { content, exception_type, exception_message } => InfoModel::Error {
                content: content@,
                exception_type: exception_type@,
                exception_message: exception_message@,
            },
        }
    }
}

impl InfoModel {
    /// The `type` tag on the wire.
    pub open spec fn type_tag(self) -> Seq<char> {
        match self {
            InfoModel::Text { .. } => "text"@,
            InfoModel::Binary { .. } => "binary"@,
            InfoModel::Excluded { .. } => "excluded"@,
            InfoModel::Error { .. } => "error"@,
        }
    }
}

impl FileInfo {
    /// The `type` tag on the wire: one of `text`, `binary`, `excluded`,
    /// `error`.
    pub fn type_tag(&self) -> (s: &'static str)
        ensures
            s@ == self@.type_tag(),
            s@ == "text"@ || s@ == "binary"@ || s@ == "excluded"@ || s@ == "error"@,
    {
        match self {
            FileInfo::Text { .. } => "text",
            FileInfo::Binary { .. } => "binary",
            FileInfo::Excluded { .. } => "excluded",
            FileInfo::Error { .. } => "error",
        }
    }
}

/// Every info bears exactly one of four tags.
pub proof fn lemma_one_of_four_tags(info: InfoModel)
    ensures
        info.type_tag() == "text"@ || info.type_tag() == "binary"@ || info.type_tag()
            == "excluded"@ || info.type_tag() == "error"@,
        info.type_tag() == "text"@ <==> info is Text,
        info.type_tag() == "binary"@ <==> info is Binary,
        info.type_tag() == "excluded"@ <==> info is Excluded,
        info.type_tag() == "error"@ <==> info is Error,
{
    reveal_strlit("text");
    reveal_strlit("binary");
    reveal_strlit("excluded");
    reveal_strlit("error");
    assert("text"@.len() == 4 && "binary"@.len() == 6 && "excluded"@.len() == 8 && "error"@.len()
        == 5);
}

/// The verdict on a file, text or binary, with the memo.
pub fn classify_binary<F: FnOnce() -> BytesRead>(
    cache: &mut ClassifierCache,
    path: &str,
    filename: &str,
    meta: Option<&FileMeta>,
    read_sample: F,
) -> (r: Result<bool, NativeError>)
    requires
        read_sample.requires(()),
    ensures
        final(cache).limit() == old(cache).limit(),
        crate::mime::memo_outcome(
            old(cache)@,
            old(cache).limit(),
            path@,
            filename@,
            meta,
            read_sample,
            r,
            final(cache)@,
        ),
{
    crate::mime::is_binary(cache, path, filename, meta, read_sample)
}


/// The standard base64 text, with padding, of a byte sequence.
pub uninterp spec fn base64_of(data: Seq<u8>) -> Seq<char>;

/// Trusted: wraps `Engine::encode` of the `base64` crate on its `STANDARD`
/// engine. The result depends on the bytes alone; the contract names it.
/// The bound keeps the length computation of the crate from overflowing.
#[verifier::external_body]
fn base64_encode(data: &[u8]) -> (s: String)
    requires
        data.len() <= MAX_BINARY_CONTENT_BYTES,
    ensures
        s@ == base64_of(data@),
{
    base64::Engine::encode(&base64::engine::general_purpose::STANDARD, data)
}

/// Trusted: wraps `Engine::decode` of the `base64` crate on its `STANDARD`
/// engine, which gives back the bytes of any text that the same engine
/// encoded.
#[verifier::external_body]
fn base64_decode(text: &str) -> (r: Option<Vec<u8>>)
    ensures
        match r {
            Some(v) => forall|data: Seq<u8>| text@ == #[trigger] base64_of(data) ==> v@ == data,
            None => forall|data: Seq<u8>| text@ != #[trigger] base64_of(data),
        },
{
    base64::Engine::decode(&base64::engine::general_purpose::STANDARD, text).ok()
}

/// The first `n` bytes of `data`, all of it where it is shorter.
pub open spec fn head(data: Seq<u8>, n: int) -> Seq<u8> {
    if data.len() > n {
        data.take(n)
    } else {
        data
    }
}

fn head_of(data: &[u8], n: usize) -> (h: &[u8])
    ensures
        h@ == head(data@, n as int),
{
    if data.len() > n {
        vstd::slice::slice_subrange(data, 0, n)
    } else {
        data
    }
}

/// Number of bytes a binary preview asks of a file of the given size.
pub open spec fn binary_preview_size(file_size: u64, max_preview_bytes: usize) -> int {
    let limit = if max_preview_bytes < MAX_BINARY_CONTENT_BYTES {
        max_preview_bytes as int
    } else {
        MAX_BINARY_CONTENT_BYTES as int
    };
    if (file_size as int) < limit {
        file_size as int
    } else {
        limit
    }
}

/// Number of bytes a binary preview asks of a file of the given size.
pub fn binary_read_size(file_size: u64, max_preview_bytes: usize) -> (n: usize)
    ensures
        n == binary_preview_size(file_size, max_preview_bytes),
        n <= MAX_BINARY_CONTENT_BYTES,
{
    let limit = if max_preview_bytes < MAX_BINARY_CONTENT_BYTES {
        max_preview_bytes
    } else {
        MAX_BINARY_CONTENT_BYTES
    };
    if file_size < limit as u64 {
        file_size as usize
    } else {
        limit
    }
}

/// The binary preview of a file of the given size from the bytes that were
/// read of it: the base64 of those bytes, as far as the preview reaches,
/// their number, and whether the file holds more.
pub open spec fn binary_preview_of(file_size: u64, max_preview_bytes: usize, data: Seq<u8>) -> InfoModel {
    let kept = head(data, binary_preview_size(file_size, max_preview_bytes));
    InfoModel::Binary {
        content: base64_of(kept),
        preview_bytes: kept.len(),
        truncated: file_size > kept.len(),
    }
}

/// Builds the binary preview from the bytes read.
pub fn binary_preview(file_size: u64, max_preview_bytes: usize, data: &[u8]) -> (info: FileInfo)
    ensures
        info@ == binary_preview_of(file_size, max_preview_bytes, data@),
{
    let n = binary_read_size(file_size, max_preview_bytes);
    let kept = head_of(data, n);
    let content = base64_encode(kept);
    FileInfo::Binary {
        content,
        preview_bytes: kept.len(),
        truncated: file_size > kept.len() as u64,
    }
}

/// The bytes that a binary preview holds, decoded from its content; none
/// for an info of another kind or a content that is no base64. Decoding
/// the preview of a file gives back the first bytes of the file, as many as
/// the preview counts.
pub fn decode_binary_preview(info: &FileInfo) -> (r: Option<Vec<u8>>)
    ensures
        !(info@ is Binary) ==> r is None,
        forall|file_size: u64, max_preview_bytes: usize, data: Seq<u8>|
            info@ == #[trigger] binary_preview_of(file_size, max_preview_bytes, data) ==> (r matches Some(
                v,
            ) && v@ == head(data, binary_preview_size(file_size, max_preview_bytes)) && v@.len()
                == info@->Binary_preview_bytes),
{
    match info {
        FileInfo::Binary { content, .. } => base64_decode(content.as_str()),
        _ => None,
    }
}

/// What a binary preview owes for a size, a cap and a read.
pub open spec fn binary_outcome(file_size: u64, max_preview_bytes: usize, read: BytesRead) -> Result<
    InfoModel,
    ErrorModel,
> {
    match read {
        BytesRead::Bytes(b) => Ok(binary_preview_of(file_size, max_preview_bytes, b@)),
        BytesRead::Failed(m) => Err(ErrorModel::Io(m@)),
    }
}

/// The record of a binary file too large to preview.
pub open spec fn too_large(file_size: u64) -> InfoModel {
    InfoModel::Excluded { reason: ExclusionReason::BinaryTooLarge, size: Some(file_size) }
}

/// Whether `r` is the outcome `want`, compared by value.
pub open spec fn info_is(r: Result<FileInfo, NativeError>, want: Result<InfoModel, ErrorModel>) -> bool {
    match want {
        Ok(m) => r matches Ok(i) && i@ == m,
        Err(e) => r matches Err(x) && x@ == e,
    }
}

/// The binary preview of a file. A file larger than the cap is excluded as
/// too large and is not read. Otherwise `read` is asked once for the first
/// bytes, as many as the preview holds.
pub fn read_binary_preview<F: FnOnce(usize) -> BytesRead>(
    file_size: u64,
    max_preview_bytes: usize,
    read: F,
) -> (r: Result<FileInfo, NativeError>)
    requires
        forall|n: usize| read.requires((n,)),
    ensures
        file_size > max_preview_bytes ==> info_is(r, Ok(too_large(file_size))),
        file_size <= max_preview_bytes ==> exists|b: BytesRead|
            read.ensures((binary_preview_size(file_size, max_preview_bytes) as usize,), b)
                && info_is(r, binary_outcome(file_size, max_preview_bytes, b)),
{
    if file_size > max_preview_bytes as u64 {
        return Ok(
            FileInfo::Excluded { reason: ExclusionReason::BinaryTooLarge, size: Some(file_size) },
        );
    }
    let n = binary_read_size(file_size, max_preview_bytes);
    let got = read(n);
    match got {
        BytesRead::Bytes(bytes) => {
            let info = binary_preview(file_size, max_preview_bytes, bytes.as_slice());
            let r = Ok(info);
            assert(info_is(
                r,
                binary_outcome(file_size, max_preview_bytes, BytesRead::Bytes(bytes)),
            ));
            r
        },
        BytesRead::Failed(m) => {
            let r = Err(NativeError::Io(m));
            assert(info_is(r, binary_outcome(file_size, max_preview_bytes, BytesRead::Failed(m))));
            r
        },
    }
}

/// The canonical name of the encoding that a label stands for, where the
/// label is known.
pub uninterp spec fn encoding_for_label(label: Seq<char>) -> Option<Seq<char>>;

/// Trusted: wraps `Encoding::for_label` of `encoding_rs` and hands on the
/// name of the encoding found. The result depends on the label alone; the
/// contract names it. The name of an encoding is one of its own labels.
#[verifier::external_body]
fn label_encoding(label: &str) -> (r: Option<String>)
    ensures
        r is Some == encoding_for_label(label@) is Some,
        r matches Some(n) ==> n@ == encoding_for_label(label@).unwrap(),
        r matches Some(n) ==> encoding_for_label(n@) == Some(n@),
{
    encoding_rs::Encoding::for_label(label.as_bytes()).map(|e| e.name().to_string())
}

/// The text that bytes decode to under the encoding of a given name, with
/// malformed sequences replaced; none where the name is no known label.
pub uninterp spec fn decoded_text(encoding: Seq<char>, bytes: Seq<u8>) -> Option<Seq<char>>;

/// The names under which the detection reports an encoding that it did not
/// get from a label. Each is a label of `encoding_rs`.
pub open spec fn is_fixed_name(name: Seq<char>) -> bool {
    name == "utf-8"@ || name == "windows-1252"@ || name == "UTF-8"@ || name == "UTF-16LE"@ || name
        == "UTF-16BE"@
}

/// Trusted: wraps `Encoding::decode` of `encoding_rs` on the encoding that
/// `Encoding::for_label` finds for the name. The result depends on the name
/// and the bytes alone; the contract names it. Decoding itself never fails:
/// there is a text for every name that is a label, the five fixed names
/// among them. The bound keeps the buffer size computation of the crate
/// from overflowing.
#[verifier::external_body]
fn decode_as(encoding: &str, bytes: &[u8]) -> (r: Option<String>)
    requires
        bytes.len() <= MAX_TEXT_CONTENT_BYTES,
    ensures
        r is Some == decoded_text(encoding@, bytes@) is Some,
        r matches Some(t) ==> t@ == decoded_text(encoding@, bytes@).unwrap(),
        encoding_for_label(encoding@) is Some ==> r is Some,
        is_fixed_name(encoding@) ==> r is Some,
{
    encoding_rs::Encoding::for_label(encoding.as_bytes()).map(|e| e.decode(bytes).0.into_owned())
}

/// Trusted: wraps `std::str::from_utf8`, which succeeds exactly on valid
/// UTF-8.
#[verifier::external_body]
fn is_utf8(bytes: &[u8]) -> (b: bool)
    ensures
        b == vstd::utf8::valid_utf8(bytes@),
{
    std::str::from_utf8(bytes).is_ok()
}

/// The encoding that a byte order mark at the head of a sample names.
pub open spec fn bom_encoding(sample: Seq<u8>) -> Option<Seq<char>> {
    if sample.len() >= 3 && sample[0] == 0xEF && sample[1] == 0xBB && sample[2] == 0xBF {
        Some("UTF-8"@)
    } else if sample.len() >= 2 && sample[0] == 0xFF && sample[1] == 0xFE {
        Some("UTF-16LE"@)
    } else if sample.len() >= 2 && sample[0] == 0xFE && sample[1] == 0xFF {
        Some("UTF-16BE"@)
    } else {
        None
    }
}

/// Looks for a byte order mark.
pub fn sniff_bom(sample: &[u8]) -> (r: Option<&'static str>)
    ensures
        r is Some == bom_encoding(sample@) is Some,
        r matches Some(n) ==> n@ == bom_encoding(sample@).unwrap(),
{
    if sample.len() >= 3 && sample[0] == 0xEF && sample[1] == 0xBB && sample[2] == 0xBF {
        Some("UTF-8")
    } else if sample.len() >= 2 && sample[0] == 0xFF && sample[1] == 0xFE {
        Some("UTF-16LE")
    } else if sample.len() >= 2 && sample[0] == 0xFE && sample[1] == 0xFF {
        Some("UTF-16BE")
    } else {
        None
    }
}

/// The encoding of a text: that of the caller's label where the label is
/// known, else that of a byte order mark, else `utf-8` for valid UTF-8, else
/// `windows-1252`.
pub open spec fn detected_encoding(sample: Seq<u8>, provided: Option<Seq<char>>) -> Seq<char> {
    if provided is Some && encoding_for_label(provided.unwrap()) is Some {
        encoding_for_label(provided.unwrap()).unwrap()
    } else if bom_encoding(sample) is Some {
        bom_encoding(sample).unwrap()
    } else if vstd::utf8::valid_utf8(sample) {
        "utf-8"@
    } else {
        "windows-1252"@
    }
}

/// Picks the encoding to decode a text with, from a sample of its head and
/// the caller's label.
pub fn detect_encoding(sample: &[u8], provided: Option<&str>) -> (name: String)
    ensures
        name@ == detected_encoding(
            sample@,
            match provided {
                Some(l) => Some(l@),
                None => None,
            },
        ),
        encoding_for_label(name@) is Some || is_fixed_name(name@),
{
    if let Some(label) = provided {
        if let Some(n) = label_encoding(label) {
            return n;
        }
    }
    if let Some(n) = sniff_bom(sample) {
        return String::from_str(n);
    }
    if is_utf8(sample) {
        return String::from_str("utf-8");
    }
    String::from_str("windows-1252")
}

/// Number of bytes a text preview asks of a file.
pub open spec fn text_read_limit(max_preview_bytes: usize) -> int {
    if max_preview_bytes < MAX_TEXT_CONTENT_BYTES {
        max_preview_bytes as int
    } else {
        MAX_TEXT_CONTENT_BYTES as int
    }
}

/// Number of bytes a text preview asks of a file.
pub fn text_read_size(max_preview_bytes: usize) -> (n: usize)
    ensures
        n == text_read_limit(max_preview_bytes),
        n <= MAX_TEXT_CONTENT_BYTES,
{
    if max_preview_bytes < MAX_TEXT_CONTENT_BYTES {
        max_preview_bytes
    } else {
        MAX_TEXT_CONTENT_BYTES
    }
}

/// The text preview of a file from the sample and the body read of it: the
/// body, as far as the preview reaches, decoded under the detected encoding.
pub open spec fn text_preview_of(
    file_size: u64,
    max_preview_bytes: usize,
    provided: Option<Seq<char>>,
    sample: Seq<u8>,
    body: Seq<u8>,
) -> InfoModel {
    let encoding = detected_encoding(head(sample, ENCODING_SAMPLE_BYTES as int), provided);
    let kept = head(body, text_read_limit(max_preview_bytes));
    InfoModel::Text {
        encoding,
        content: decoded_text(encoding, kept).unwrap(),
        preview_bytes: kept.len(),
        truncated: file_size > text_read_limit(max_preview_bytes),
    }
}

/// Builds the text preview from the sample and the body read. Decoding
/// replaces what is malformed and never fails.
pub fn text_preview(
    file_size: u64,
    max_preview_bytes: usize,
    provided: Option<&str>,
    sample: &[u8],
    body: &[u8],
) -> (r: Result<FileInfo, NativeError>)
    ensures
        r matches Ok(i) && i@ == text_preview_of(
            file_size,
            max_preview_bytes,
            match provided {
                Some(l) => Some(l@),
                None => None,
            },
            sample@,
            body@,
        ),
{
    let encoding = detect_encoding(head_of(sample, ENCODING_SAMPLE_BYTES), provided);
    let limit = text_read_size(max_preview_bytes);
    let kept = head_of(body, limit);
    match decode_as(encoding.as_str(), kept) {
        Some(content) => Ok(
            FileInfo::Text {
                encoding,
                content,
                preview_bytes: kept.len(),
                truncated: file_size > limit as u64,
            },
        ),
        None => Err(
            NativeError::Encoding(crate::text::concat("unknown encoding: ", encoding.as_str())),
        ),
    }
}

/// What a text preview owes for the two reads of a file.
pub open spec fn text_outcome(
    r: Result<FileInfo, NativeError>,
    file_size: u64,
    max_preview_bytes: usize,
    provided: Option<Seq<char>>,
    sample: BytesRead,
    body: BytesRead,
) -> bool {
    match sample {
        BytesRead::Failed(m) => info_is(r, Err(ErrorModel::Io(m@))),
        BytesRead::Bytes(s) => match body {
            BytesRead::Failed(m) => info_is(r, Err(ErrorModel::Io(m@))),
            BytesRead::Bytes(b) => r matches Ok(i) && i@ == text_preview_of(
                file_size,
                max_preview_bytes,
                provided,
                s@,
                b@,
            ),
        },
    }
}

/// The caller's label as a plain value.
pub open spec fn provided_label(encoding: Option<&str>) -> Option<Seq<char>> {
    match encoding {
        Some(l) => Some(l@),
        None => None,
    }
}

/// The text preview of a file. `read` is asked for the head of the file
/// twice, from its start each time: first for the sample on which the
/// encoding is detected, then, where that succeeded, for the body.
pub fn read_text_preview<F: Fn(usize) -> BytesRead>(
    file_size: u64,
    max_preview_bytes: usize,
    encoding: Option<&str>,
    read: F,
) -> (r: Result<FileInfo, NativeError>)
    requires
        forall|n: usize| read.requires((n,)),
    ensures
        exists|s: BytesRead, b: BytesRead|
            #![trigger text_outcome(r, file_size, max_preview_bytes, provided_label(encoding), s, b)]
            read.ensures((ENCODING_SAMPLE_BYTES,), s) && (s is Bytes ==> read.ensures(
                (text_read_limit(max_preview_bytes) as usize,),
                b,
            )) && text_outcome(r, file_size, max_preview_bytes, provided_label(encoding), s, b),
{
    let sample = read(ENCODING_SAMPLE_BYTES);
    match sample {
        BytesRead::Failed(m) => {
            let r = Err(NativeError::Io(m));
            assert(text_outcome(
                r,
                file_size,
                max_preview_bytes,
                provided_label(encoding),
                BytesRead::Failed(m),
                BytesRead::Failed(m),
            ));
            r
        },
        BytesRead::Bytes(s) => {
            let limit = text_read_size(max_preview_bytes);
            let body = read(limit);
            match body {
                BytesRead::Failed(m) => {
                    let r = Err(NativeError::Io(m));
                    assert(text_outcome(
                        r,
                        file_size,
                        max_preview_bytes,
                        provided_label(encoding),
                        BytesRead::Bytes(s),
                        BytesRead::Failed(m),
                    ));
                    r
                },
                BytesRead::Bytes(b) => {
                    let r = text_preview(
                        file_size,
                        max_preview_bytes,
                        encoding,
                        s.as_slice(),
                        b.as_slice(),
                    );
                    assert(text_outcome(
                        r,
                        file_size,
                        max_preview_bytes,
                        provided_label(encoding),
                        BytesRead::Bytes(s),
                        BytesRead::Bytes(b),
                    ));
                    r
                },
            }
        },
    }
}

} // verus!
