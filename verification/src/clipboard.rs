//! The clipboard transfer protocol: reassembling the text the server sends
//! in DCLP chunks, and cutting local text into the messages that send it.
use vstd::prelude::*;
use vstd::slice::slice_subrange;
use vstd::utf8::*;

use crate::text::{
    decimal, format_usize, lemma_decode_one_pass, lemma_one_pass, lemma_one_pass_valid_utf8,
    normalize_text, normalized_text, parse_usize, spec_parse_usize, utf8_to_string, CR, LF,
};
use crate::wire::{be32, push_bytes, push_u32_be, push_u32_le, read_u32_be, u32_bytes, u32_le_bytes};

verus! {

/// The clipboard this client shares (the system clipboard, not the selection).
pub const CLIPBOARD_ID: u8 = 0;

/// Clipboard format number of plain text.
pub const FORMAT_TEXT: u32 = 0;

/// Clipboard format number of bitmaps: a BMP image without its 14-byte file
/// header (a device-independent bitmap, starting with its info header).
pub const FORMAT_BITMAP: u32 = 2;

/// Largest data chunk the client sends.
pub const CHUNK_SIZE: usize = 32768;

/// Chunk mark: the whole data in one chunk.
pub const CHUNK_SINGLE: u8 = 0;

/// Chunk mark: start of a transfer, carrying the total size in decimal.
pub const CHUNK_START: u8 = 1;

/// Chunk mark: a piece of the data.
pub const CHUNK_DATA: u8 = 2;

/// Chunk mark: end of a transfer.
pub const CHUNK_END: u8 = 3;

/// Errors in the clipboard messages.
#[derive(Debug, Clone, Copy, PartialEq, Eq, Structural)]
pub enum ClipboardError {
    /// A CCLP message shorter than nine bytes.
    ShortGrab,
    /// A DCLP message shorter than its fourteen-byte header.
    ShortMessage,
    /// A DCLP message shorter than the data length it announces.
    TruncatedData,
    /// A start chunk whose size is not a decimal number.
    InvalidChunkSize,
    /// An end chunk after a different amount of data than announced.
    SizeMismatch,
    /// Clipboard data with a format entry that runs past its end.
    TruncatedFormat,
    /// Clipboard text that is not UTF-8.
    InvalidUtf8,
}

/// The transfer in progress and the texts last exchanged with the server.
#[derive(Debug)]
pub struct ClipboardState {
    expected_size: Option<usize>,
    data: Vec<u8>,
    last_remote_text: Option<String>,
    last_sent_text: Option<String>,
}

/// The text inside an optional string.
pub open spec fn opt_text(t: Option<String>) -> Option<Seq<char>> {
    match t {
        Some(s) => Some(s@),
        None => None,
    }
}

/// The model of a `ClipboardState`.
pub struct ClipboardView {
    /// Size announced by the last start chunk, until the end chunk.
    pub expected_size: Option<usize>,
    /// Data received since the last start chunk.
    pub data: Seq<u8>,
    /// Text last received from the server and written locally.
    pub last_remote_text: Option<Seq<char>>,
    /// Text last sent to the server.
    pub last_sent_text: Option<Seq<char>>,
}

impl View for ClipboardState {
    type V = ClipboardView;

    closed spec fn view(&self) -> ClipboardView {
        ClipboardView {
            expected_size: self.expected_size,
            data: self.data@,
            last_remote_text: opt_text(self.last_remote_text),
            last_sent_text: opt_text(self.last_sent_text),
        }
    }
}

/// A state with no transfer in progress and nothing exchanged yet.
pub open spec fn empty_view() -> ClipboardView {
    ClipboardView {
        expected_size: None,
        data: Seq::empty(),
        last_remote_text: None,
        last_sent_text: None,
    }
}

impl Default for ClipboardState {
    fn default() -> (res: Self)
        ensures
            res@ == empty_view(),
    {
        ClipboardState::new()
    }
}

/// The fields of a DCLP chunk: clipboard id, sequence number, mark, data.
pub type ChunkFields = (u8, u32, u8, Seq<u8>);

/// What a DCLP message holds: after the code, the clipboard id, the
/// sequence number, the mark and the data length, then that much data.
pub open spec fn spec_decode_clipboard_chunk(msg: Seq<u8>) -> Result<
    Option<ChunkFields>,
    ClipboardError,
> {
    if msg.len() < 14 {
        Err(ClipboardError::ShortMessage)
    } else if msg.len() < 14 + be32(msg, 10) {
        Err(ClipboardError::TruncatedData)
    } else {
        Ok(Some((msg[4], be32(msg, 5) as u32, msg[9], msg.subrange(14, 14 + be32(msg, 10)))))
    }
}

/// Splits a DCLP message into its fields.
pub fn decode_clipboard_chunk(msg: &[u8]) -> (res: Result<Option<(u8, u32, u8, &[u8])>, ClipboardError>)
    ensures
        match (res, spec_decode_clipboard_chunk(msg@)) {
            (Ok(Some((id, seq, mark, data))), Ok(Some(f))) => (id, seq, mark, data@) == f,
            (Err(e), Err(f)) => e == f,
            _ => false,
        },
{
    if msg.len() < 14 {
        return Err(ClipboardError::ShortMessage);
    }
    let id: u8 = msg[4];
    let sequence: u32 = read_u32_be(msg, 5);
    let mark: u8 = msg[9];
    let data_len: usize = read_u32_be(msg, 10) as usize;
    if msg.len() - 14 < data_len {
        return Err(ClipboardError::TruncatedData);
    }
    let end: usize = 14 + data_len;
    Ok(Some((id, sequence, mark, slice_subrange(msg, 14, end))))
}

/// Reads the big-endian `u32` at `offset` and moves past it, or leaves
/// `offset` alone when fewer than four bytes remain there.
pub fn read_u32(data: &[u8], offset: &mut usize) -> (res: Option<u32>)
    ensures
        old(offset) + 4 <= data@.len() ==> res == Some(be32(data@, *old(offset) as int) as u32)
            && *final(offset) == *old(offset) + 4,
        old(offset) + 4 > data@.len() ==> res is None && *final(offset) == *old(offset),
{
    if *offset > data.len() || data.len() - *offset < 4 {
        return None;
    }
    let value: u32 = read_u32_be(data, *offset);
    *offset = *offset + 4;
    Some(value)
}

/// The search for the first entry of clipboard format `format` among the
/// format entries that start at `offset`, at most `count` of them: each
/// entry is a format number and a size, then that many bytes.
pub open spec fn find_entry_from(data: Seq<u8>, offset: int, count: nat, format: u32) -> Result<
    Option<Seq<u8>>,
    ClipboardError,
>
    decreases count,
{
    if count == 0 || offset + 8 > data.len() {
        Ok(None)
    } else {
        let end = offset + 8 + be32(data, offset + 4);
        if end > data.len() {
            Err(ClipboardError::TruncatedFormat)
        } else if be32(data, offset) == format {
            Ok(Some(data.subrange(offset + 8, end)))
        } else {
            find_entry_from(data, end, (count - 1) as nat, format)
        }
    }
}

/// The bytes of the first entry of format `format` in clipboard data: a
/// count of entries, then the entries.
pub open spec fn spec_entry(data: Seq<u8>, format: u32) -> Result<Option<Seq<u8>>, ClipboardError> {
    if data.len() < 4 {
        Ok(None)
    } else {
        find_entry_from(data, 4, be32(data, 0) as nat, format)
    }
}

/// The bytes of the first plain-text entry of clipboard data.
pub open spec fn spec_text_entry(data: Seq<u8>) -> Result<Option<Seq<u8>>, ClipboardError> {
    spec_entry(data, FORMAT_TEXT)
}

/// Finds the bytes of the first entry of format `format` in clipboard data.
pub fn find_entry(data: &[u8], format: u32) -> (res: Result<Option<&[u8]>, ClipboardError>)
    ensures
        match (res, spec_entry(data@, format)) {
            (Ok(Some(t)), Ok(Some(s))) => t@ == s,
            (Ok(None), Ok(None)) => true,
            (Err(e), Err(f)) => e == f,
            _ => false,
        },
{
    let mut offset: usize = 0;
    let format_count: u32 = match read_u32(data, &mut offset) {
        Some(n) => n,
        None => return Ok(None),
    };
    let mut i: u32 = 0;
    while i < format_count
        invariant
            i <= format_count,
            format_count as int == be32(data@, 0),
            data@.len() >= 4,
            offset <= data@.len(),
            spec_entry(data@, format) == find_entry_from(
                data@,
                offset as int,
                (format_count - i) as nat,
                format,
            ),
        decreases format_count - i,
    {
        let entry_format: u32 = match read_u32(data, &mut offset) {
            Some(f) => f,
            None => return Ok(None),
        };
        let size: usize = match read_u32(data, &mut offset) {
            Some(s) => s as usize,
            None => return Ok(None),
        };
        if data.len() - offset < size {
            return Err(ClipboardError::TruncatedFormat);
        }
        let end: usize = offset + size;
        if entry_format == format {
            return Ok(Some(slice_subrange(data, offset, end)));
        }
        offset = end;
        i = i + 1;
    }
    Ok(None)
}

/// Finds the bytes of the first plain-text entry of clipboard data.
pub fn find_text_entry(data: &[u8]) -> (res: Result<Option<&[u8]>, ClipboardError>)
    ensures
        match (res, spec_text_entry(data@)) {
            (Ok(Some(t)), Ok(Some(s))) => t@ == s,
            (Ok(None), Ok(None)) => true,
            (Err(e), Err(f)) => e == f,
            _ => false,
        },
{
    find_entry(data, FORMAT_TEXT)
}

/// The text that clipboard data carries: the plain-text entry, if there is
/// one, decoded as UTF-8 with its line endings normalised.
pub open spec fn spec_extract_text(data: Seq<u8>) -> Result<Option<Seq<char>>, ClipboardError> {
    match spec_text_entry(data) {
        Err(e) => Err(e),
        Ok(None) => Ok(None),
        Ok(Some(t)) => if valid_utf8(t) {
            Ok(Some(normalized_text(decode_utf8(t))))
        } else {
            Err(ClipboardError::InvalidUtf8)
        },
    }
}

/// The optional text inside a result, as characters.
pub open spec fn text_result(r: Result<Option<String>, ClipboardError>) -> Result<
    Option<Seq<char>>,
    ClipboardError,
> {
    match r {
        Ok(t) => Ok(opt_text(t)),
        Err(e) => Err(e),
    }
}

/// Takes the text out of clipboard data.
pub fn extract_text(data: &[u8]) -> (res: Result<Option<String>, ClipboardError>)
    ensures
        text_result(res) == spec_extract_text(data@),
{
    let entry = match find_text_entry(data)? {
        Some(t) => t,
        None => return Ok(None),
    };
    if utf8_to_string(entry).is_none() {
        return Err(ClipboardError::InvalidUtf8);
    }
    let normal = normalize_text(entry);
    proof {
        lemma_one_pass(entry@, CR, LF);
        lemma_decode_one_pass(entry@);
        lemma_one_pass(decode_utf8(entry@), '\r', '\n');
        lemma_one_pass_valid_utf8(entry@);
    }
    match utf8_to_string(normal.as_slice()) {
        Some(text) => Ok(Some(text)),
        None => Err(ClipboardError::InvalidUtf8),
    }
}

/// What a clipboard transfer hands over for the local clipboard.
#[derive(Debug, PartialEq, Eq)]
pub enum ClipboardContent {
    /// Text, line endings normalised.
    Text(String),
    /// A BMP image file.
    Image(Vec<u8>),
}

/// The model of a `ClipboardContent`.
pub enum ContentView {
    Text(Seq<char>),
    Image(Seq<u8>),
}

impl View for ClipboardContent {
    type V = ContentView;

    open spec fn view(&self) -> ContentView {
        match self {
            ClipboardContent::Text(t) => ContentView::Text(t@),
            ClipboardContent::Image(b) => ContentView::Image(b@),
        }
    }
}

/// A BMP file made from a bitmap entry: the 14-byte file header ("BM", the
/// file size truncated to 32 bits, two reserved zero words, and the offset
/// 54 of the pixels after the file header and a 40-byte info header), all
/// little-endian, then the bitmap.
pub open spec fn bmp_file(bitmap: Seq<u8>) -> Seq<u8> {
    seq![0x42u8, 0x4d] + u32_le_bytes(((14 + bitmap.len()) as u32) as int) + seq![0u8, 0, 0, 0]
        + u32_le_bytes(54) + bitmap
}

/// Builds the BMP file for a bitmap entry.
pub fn bmp_file_message(bitmap: &[u8]) -> (res: Vec<u8>)
    ensures
        res@ == bmp_file(bitmap@),
{
    let mut out: Vec<u8> = Vec::new();
    out.push(0x42);
    out.push(0x4d);
    proof {
        assert(out@ =~= seq![0x42u8, 0x4d]);
    }
    let len: usize = bitmap.len();
    let low: u32 = len as u32;
    let size: u32 = if low <= 4294967281 {
        low + 14
    } else {
        low - 4294967282
    };
    proof {
        assert(size == (14 + len) as u32) by (bit_vector)
            requires
                low == len as u32,
                low <= 4294967281 ==> size == low + 14,
                low > 4294967281 ==> size == low - 4294967282,
        ;
    }
    push_u32_le(&mut out, size);
    out.push(0);
    out.push(0);
    out.push(0);
    out.push(0);
    push_u32_le(&mut out, 54);
    push_bytes(&mut out, bitmap);
    proof {
        assert(out@ =~= bmp_file(bitmap@));
    }
    out
}

/// What clipboard data gives the local clipboard: its text if it has a
/// plain-text entry, else its image if it has a bitmap entry.
pub open spec fn spec_extract_content(data: Seq<u8>) -> Result<Option<ContentView>, ClipboardError> {
    match spec_extract_text(data) {
        Err(e) => Err(e),
        Ok(Some(t)) => Ok(Some(ContentView::Text(t))),
        Ok(None) => match spec_entry(data, FORMAT_BITMAP) {
            Err(e) => Err(e),
            Ok(None) => Ok(None),
            Ok(Some(b)) => Ok(Some(ContentView::Image(bmp_file(b)))),
        },
    }
}

/// The optional content inside a result, as a model.
pub open spec fn content_result(r: Result<Option<ClipboardContent>, ClipboardError>) -> Result<
    Option<ContentView>,
    ClipboardError,
> {
    match r {
        Ok(Some(c)) => Ok(Some(c@)),
        Ok(None) => Ok(None),
        Err(e) => Err(e),
    }
}

/// Takes what the local clipboard should get out of clipboard data.
pub fn extract_content(data: &[u8]) -> (res: Result<Option<ClipboardContent>, ClipboardError>)
    ensures
        content_result(res) == spec_extract_content(data@),
{
    match extract_text(data)? {
        Some(text) => Ok(Some(ClipboardContent::Text(text))),
        None => match find_entry(data, FORMAT_BITMAP)? {
            Some(bitmap) => Ok(Some(ClipboardContent::Image(bmp_file_message(bitmap)))),
            None => Ok(None),
        },
    }
}

/// The model with no transfer in progress.
pub open spec fn transfer_reset(v: ClipboardView) -> ClipboardView {
    ClipboardView { expected_size: None, data: Seq::empty(), ..v }
}

/// The model once `text` from the server is in the local clipboard.
pub open spec fn with_remote_text(v: ClipboardView, text: Seq<char>) -> ClipboardView {
    ClipboardView { last_remote_text: Some(text), last_sent_text: None, ..v }
}

/// The model once an image from the server is in the local clipboard: it
/// holds neither remembered text any more.
pub open spec fn with_remote_image(v: ClipboardView) -> ClipboardView {
    ClipboardView { last_remote_text: None, last_sent_text: None, ..v }
}

/// The model once `text` was sent to the server.
pub open spec fn with_sent_text(v: ClipboardView, text: Seq<char>) -> ClipboardView {
    ClipboardView { last_remote_text: None, last_sent_text: Some(text), ..v }
}

/// A model after a chunk, and what the chunk gives: the content to write
/// into the local clipboard, if any.
pub type ChunkStep = (ClipboardView, Result<Option<ContentView>, ClipboardError>);

/// What one DCLP message does.
#[verifier::opaque]
pub open spec fn spec_handle_clipboard_message(v: ClipboardView, msg: Seq<u8>) -> ChunkStep {
    match spec_decode_clipboard_chunk(msg) {
        Err(e) => (v, Err(e)),
        Ok(None) => (v, Ok(None)),
        Ok(Some((id, _sequence, mark, data))) => if id != CLIPBOARD_ID {
            (v, Ok(None))
        } else if mark == CHUNK_SINGLE {
            (v, spec_extract_content(data))
        } else if mark == CHUNK_START {
            match spec_parse_usize(data) {
                None => (v, Err(ClipboardError::InvalidChunkSize)),
                Some(n) => (ClipboardView { expected_size: Some(n), data: Seq::empty(), ..v }, Ok(None)),
            }
        } else if mark == CHUNK_DATA {
            (ClipboardView { data: v.data + data, ..v }, Ok(None))
        } else if mark == CHUNK_END {
            let done = transfer_reset(v);
            if v.expected_size != Some(v.data.len() as usize) {
                (done, Err(ClipboardError::SizeMismatch))
            } else {
                (done, spec_extract_content(v.data))
            }
        } else {
            (v, Ok(None))
        },
    }
}

impl ClipboardState {
    /// A state with no transfer in progress and nothing exchanged yet.
    pub fn new() -> (res: Self)
        ensures
            res@ == empty_view(),
    {
        ClipboardState {
            expected_size: None,
            data: Vec::new(),
            last_remote_text: None,
            last_sent_text: None,
        }
    }

    /// Handles CCLP: when the server grabs this clipboard, any transfer in
    /// progress is dropped.
    pub fn handle_clipboard_grab(&mut self, msg: &[u8]) -> (res: Result<(), ClipboardError>)
        ensures
            msg@.len() < 9 ==> res == Err::<(), _>(ClipboardError::ShortGrab) && final(self)@
                == old(self)@,
            msg@.len() >= 9 && msg@[4] != CLIPBOARD_ID ==> res is Ok && final(self)@ == old(
                self,
            )@,
            msg@.len() >= 9 && msg@[4] == CLIPBOARD_ID ==> res is Ok && final(self)@
                == transfer_reset(old(self)@),
    {
        if msg.len() < 9 {
            return Err(ClipboardError::ShortGrab);
        }
        if msg[4] != CLIPBOARD_ID {
            return Ok(());
        }
        self.expected_size = None;
        self.data.clear();
        Ok(())
    }

    /// Handles DCLP. Returns what to write into the local clipboard when a
    /// complete payload has arrived; once it is written, call
    /// `remote_text_written` or `remote_image_written`.
    pub fn handle_clipboard_message(&mut self, msg: &[u8]) -> (res: Result<
        Option<ClipboardContent>,
        ClipboardError,
    >)
        ensures
            final(self)@ == spec_handle_clipboard_message(old(self)@, msg@).0,
            content_result(res) == spec_handle_clipboard_message(old(self)@, msg@).1,
    {
        reveal(spec_handle_clipboard_message);
        let (id, _sequence, mark, data) = match decode_clipboard_chunk(msg)? {
            Some(fields) => fields,
            None => return Ok(None),
        };
        if id != CLIPBOARD_ID {
            return Ok(None);
        }
        if mark == CHUNK_SINGLE {
            self.set_local_text(data)
        } else if mark == CHUNK_START {
            let size = match parse_usize(data) {
                Some(n) => n,
                None => return Err(ClipboardError::InvalidChunkSize),
            };
            self.expected_size = Some(size);
            self.data.clear();
            Ok(None)
        } else if mark == CHUNK_DATA {
            push_bytes(&mut self.data, data);
            Ok(None)
        } else if mark == CHUNK_END {
            let expected_size = self.expected_size;
            self.expected_size = None;
            let received: usize = self.data.len();
            if expected_size != Some(received) {
                self.data.clear();
                return Err(ClipboardError::SizeMismatch);
            }
            let mut complete: Vec<u8> = Vec::new();
            std::mem::swap(&mut complete, &mut self.data);
            self.set_local_text(complete.as_slice())
        } else {
            Ok(None)
        }
    }

    /// What a complete clipboard payload gives the local clipboard: its text,
    /// else its image.
    pub fn set_local_text(&self, data: &[u8]) -> (res: Result<Option<ClipboardContent>, ClipboardError>)
        ensures
            content_result(res) == spec_extract_content(data@),
    {
        extract_content(data)
    }

    /// Records that an image from the server is now in the local clipboard.
    pub fn remote_image_written(&mut self)
        ensures
            final(self)@ == with_remote_image(old(self)@),
    {
        self.last_remote_text = None;
        self.last_sent_text = None;
    }

    /// Records that `text`, received from the server, is now in the local
    /// clipboard.
    pub fn remote_text_written(&mut self, text: String)
        ensures
            final(self)@ == with_remote_text(old(self)@, text@),
    {
        self.last_remote_text = Some(text);
        self.last_sent_text = None;
    }

    /// Whether local text should go to the server: not when it is the text
    /// last received from it, nor the text last sent to it.
    pub fn should_send_local_text(&self, text: &str) -> (res: bool)
        ensures
            res == (self@.last_remote_text != Some(text@) && self@.last_sent_text != Some(
                text@,
            )),
    {
        let differs_remote = match &self.last_remote_text {
            Some(t) => !same_text(t.as_str(), text),
            None => true,
        };
        let differs_sent = match &self.last_sent_text {
            Some(t) => !same_text(t.as_str(), text),
            None => true,
        };
        differs_remote && differs_sent
    }

    /// Records that `text` was sent to the server.
    pub fn remember_sent_text(&mut self, text: String)
        ensures
            final(self)@ == with_sent_text(old(self)@, text@),
    {
        self.last_remote_text = None;
        self.last_sent_text = Some(text);
    }
}

/// "CCLP" as bytes.
pub open spec fn cclp_bytes() -> Seq<u8> {
    seq![0x43u8, 0x43, 0x4c, 0x50]
}

/// "DCLP" as bytes.
pub open spec fn dclp_bytes() -> Seq<u8> {
    seq![0x44u8, 0x43, 0x4c, 0x50]
}

/// The CCLP body that announces a grab of this clipboard.
pub open spec fn grab_body(sequence: u32) -> Seq<u8> {
    cclp_bytes() + seq![CLIPBOARD_ID] + u32_bytes(sequence as int)
}

/// A DCLP body: clipboard id, sequence number, mark, the data length
/// (truncated to 32 bits) and the data.
pub open spec fn chunk_body(sequence: u32, mark: u8, data: Seq<u8>) -> Seq<u8> {
    dclp_bytes() + seq![CLIPBOARD_ID] + u32_bytes(sequence as int) + seq![mark] + u32_bytes(
        (data.len() as u32) as int,
    ) + data
}

/// Clipboard data holding one plain-text entry: the entry count (one), the
/// text format number, the text length, then the text.
pub open spec fn text_data(text: Seq<u8>) -> Seq<u8> {
    u32_bytes(1) + u32_bytes(FORMAT_TEXT as int) + u32_bytes((text.len() as u32) as int) + text
}

/// `s` cut into pieces of `n` bytes, the last one possibly shorter.
pub open spec fn chunks_of(s: Seq<u8>, n: nat) -> Seq<Seq<u8>>
    decreases s.len(),
{
    if s.len() == 0 || n == 0 {
        Seq::empty()
    } else if s.len() <= n {
        seq![s]
    } else {
        seq![s.subrange(0, n as int)] + chunks_of(s.subrange(n as int, s.len() as int), n)
    }
}

/// DCLP data chunks carrying the given pieces.
pub open spec fn data_bodies(sequence: u32, pieces: Seq<Seq<u8>>) -> Seq<Seq<u8>> {
    pieces.map_values(|c: Seq<u8>| chunk_body(sequence, CHUNK_DATA, c))
}

/// The DCLP bodies that send `text`: a start chunk with the data size in
/// decimal, the data in pieces of `CHUNK_SIZE`, then an empty end chunk.
pub open spec fn text_bodies(sequence: u32, text: Seq<u8>) -> Seq<Seq<u8>> {
    let d = text_data(text);
    seq![chunk_body(sequence, CHUNK_START, decimal(d.len()))] + data_bodies(
        sequence,
        chunks_of(d, CHUNK_SIZE as nat),
    ) + seq![chunk_body(sequence, CHUNK_END, Seq::empty())]
}

/// The bytes of each message.
pub open spec fn bodies(msgs: Seq<Vec<u8>>) -> Seq<Seq<u8>> {
    msgs.map_values(|m: Vec<u8>| m@)
}

/// Builds the CCLP body announcing a grab of this clipboard.
pub fn grab_message(enter_sequence: u32) -> (res: Vec<u8>)
    ensures
        res@ == grab_body(enter_sequence),
{
    let mut out: Vec<u8> = Vec::new();
    out.push(0x43);
    out.push(0x43);
    out.push(0x4c);
    out.push(0x50);
    out.push(CLIPBOARD_ID);
    proof {
        assert(out@ =~= cclp_bytes() + seq![CLIPBOARD_ID]);
    }
    push_u32_be(&mut out, enter_sequence);
    out
}

/// Builds a DCLP body.
pub fn clipboard_chunk_message(enter_sequence: u32, mark: u8, data: &[u8]) -> (res: Vec<u8>)
    ensures
        res@ == chunk_body(enter_sequence, mark, data@),
{
    let mut out: Vec<u8> = Vec::new();
    out.push(0x44);
    out.push(0x43);
    out.push(0x4c);
    out.push(0x50);
    out.push(CLIPBOARD_ID);
    proof {
        assert(out@ =~= dclp_bytes() + seq![CLIPBOARD_ID]);
    }
    push_u32_be(&mut out, enter_sequence);
    out.push(mark);
    push_u32_be(&mut out, data.len() as u32);
    push_bytes(&mut out, data);
    out
}

/// Builds the clipboard data carrying `text` as its only entry.
pub fn text_data_message(text: &[u8]) -> (res: Vec<u8>)
    ensures
        res@ == text_data(text@),
{
    let mut out: Vec<u8> = Vec::new();
    push_u32_be(&mut out, 1);
    proof {
        assert(out@ =~= u32_bytes(1));
    }
    push_u32_be(&mut out, FORMAT_TEXT);
    push_u32_be(&mut out, text.len() as u32);
    push_bytes(&mut out, text);
    out
}

/// Builds the DCLP bodies that send `text` (see `text_bodies`).
pub fn text_messages(enter_sequence: u32, text: &[u8]) -> (res: Vec<Vec<u8>>)
    ensures
        bodies(res@) == text_bodies(enter_sequence, text@),
{
    let data = text_data_message(text);
    let n: usize = data.len();
    let size_text = format_usize(n);
    let mut out: Vec<Vec<u8>> = Vec::new();
    out.push(clipboard_chunk_message(enter_sequence, CHUNK_START, size_text.as_slice()));
    let ghost all = data_bodies(enter_sequence, chunks_of(data@, CHUNK_SIZE as nat));
    proof {
        assert(data@.subrange(0, n as int) =~= data@);
        assert(bodies(out@) =~= seq![chunk_body(enter_sequence, CHUNK_START, decimal(n as nat))]);
    }
    let mut offset: usize = 0;
    while offset < n
        invariant
            n == data@.len(),
            offset <= n,
            all == data_bodies(enter_sequence, chunks_of(data@, CHUNK_SIZE as nat)),
            bodies(out@) + data_bodies(
                enter_sequence,
                chunks_of(data@.subrange(offset as int, n as int), CHUNK_SIZE as nat),
            ) == seq![chunk_body(enter_sequence, CHUNK_START, decimal(n as nat))] + all,
        decreases n - offset,
    {
        let end: usize = if n - offset <= CHUNK_SIZE {
            n
        } else {
            offset + CHUNK_SIZE
        };
        let piece = slice_subrange(data.as_slice(), offset, end);
        let ghost rest = data@.subrange(offset as int, n as int);
        let ghost old_out = bodies(out@);
        out.push(clipboard_chunk_message(enter_sequence, CHUNK_DATA, piece));
        proof {
            let f = |c: Seq<u8>| chunk_body(enter_sequence, CHUNK_DATA, c);
            assert(bodies(out@) =~= old_out.push(chunk_body(enter_sequence, CHUNK_DATA, piece@)));
            if end == n {
                assert(rest =~= piece@);
                assert(chunks_of(rest, CHUNK_SIZE as nat) == seq![rest]);
                assert(data@.subrange(end as int, n as int) =~= Seq::<u8>::empty());
                assert(chunks_of(Seq::<u8>::empty(), CHUNK_SIZE as nat) =~= Seq::<Seq<u8>>::empty());
                assert(seq![rest].map_values(f) =~= seq![f(rest)]);
                assert(Seq::<Seq<u8>>::empty().map_values(f) =~= Seq::<Seq<u8>>::empty());
            } else {
                assert(rest.subrange(0, CHUNK_SIZE as int) =~= piece@);
                assert(rest.subrange(CHUNK_SIZE as int, rest.len() as int) =~= data@.subrange(
                    end as int,
                    n as int,
                ));
                let tail = chunks_of(data@.subrange(end as int, n as int), CHUNK_SIZE as nat);
                assert(chunks_of(rest, CHUNK_SIZE as nat) == seq![piece@] + tail);
                assert((seq![piece@] + tail).map_values(f) =~= seq![f(piece@)] + tail.map_values(
                    f,
                ));
            }
            assert(old_out.push(f(piece@)) + data_bodies(
                enter_sequence,
                chunks_of(data@.subrange(end as int, n as int), CHUNK_SIZE as nat),
            ) =~= old_out + data_bodies(enter_sequence, chunks_of(rest, CHUNK_SIZE as nat)));
        }
        offset = end;
    }
    let ghost before_end = bodies(out@);
    out.push(clipboard_chunk_message(enter_sequence, CHUNK_END, &[]));
    proof {
        assert(data@.subrange(n as int, n as int) =~= Seq::<u8>::empty());
        assert(chunks_of(Seq::<u8>::empty(), CHUNK_SIZE as nat) =~= Seq::<Seq<u8>>::empty());
        assert(Seq::<Seq<u8>>::empty().map_values(
            |c: Seq<u8>| chunk_body(enter_sequence, CHUNK_DATA, c),
        ) =~= Seq::<Seq<u8>>::empty());
        assert(before_end + Seq::<Seq<u8>>::empty() =~= before_end);
        assert(bodies(out@) =~= before_end.push(chunk_body(enter_sequence, CHUNK_END, Seq::empty())));
        assert(bodies(out@) =~= text_bodies(enter_sequence, text@));
    }
    out
}

/// What `local_text_messages` sends for `text`: nothing for empty text or
/// text the server already has, else a grab then the text.
pub open spec fn spec_local_text_bodies(v: ClipboardView, sequence: u32, text: Seq<char>) -> Seq<
    Seq<u8>,
> {
    if text.len() == 0 || v.last_remote_text == Some(text) || v.last_sent_text == Some(text) {
        Seq::empty()
    } else {
        seq![grab_body(sequence)] + text_bodies(sequence, encode_utf8(text))
    }
}

impl ClipboardState {
    /// The message bodies that hand local clipboard `text` to the server.
    /// Once they are sent, call `remember_sent_text`.
    pub fn local_text_messages(&self, enter_sequence: u32, text: &str) -> (res: Vec<Vec<u8>>)
        ensures
            bodies(res@) == spec_local_text_bodies(self@, enter_sequence, text@),
    {
        let byte_len: usize = text.as_bytes().len();
        proof {
            lemma_encode_empty(text@);
            assert(byte_len == encode_utf8(text@).len());
        }
        if byte_len == 0 || !self.should_send_local_text(text) {
            let none: Vec<Vec<u8>> = Vec::new();
            proof {
                assert(bodies(none@) =~= Seq::<Seq<u8>>::empty());
                lemma_encode_empty(text@);
                assert(text@.len() == 0 || self@.last_remote_text == Some(text@)
                    || self@.last_sent_text == Some(text@));
            }
            return none;
        }
        proof {
            lemma_encode_empty(text@);
        }
        let mut out: Vec<Vec<u8>> = Vec::new();
        out.push(grab_message(enter_sequence));
        let mut rest = text_messages(enter_sequence, text.as_bytes());
        let ghost first = bodies(out@);
        let ghost second = bodies(rest@);
        out.append(&mut rest);
        proof {
            assert(bodies(out@) =~= first + second);
        }
        out
    }
}

/// What a sequence of DCLP messages does, stopping at the first error: the
/// final model and the contents to write into the local clipboard, in order.
pub open spec fn receive_all(v: ClipboardView, msgs: Seq<Seq<u8>>) -> (
    ClipboardView,
    Result<Seq<ContentView>, ClipboardError>,
)
    decreases msgs.len(),
{
    if msgs.len() == 0 {
        (v, Ok(Seq::empty()))
    } else {
        let (v1, r1) = spec_handle_clipboard_message(v, msgs[0]);
        match r1 {
            Err(e) => (v1, Err(e)),
            Ok(t) => {
                let (v2, r2) = receive_all(v1, msgs.subrange(1, msgs.len() as int));
                match r2 {
                    Err(e) => (v2, Err(e)),
                    Ok(ts) => (
                        v2,
                        Ok(
                            match t {
                                Some(x) => seq![x] + ts,
                                None => ts,
                            },
                        ),
                    ),
                }
            },
        }
    }
}

/// A DCLP body reads back as the fields it was built from.
pub proof fn lemma_chunk_roundtrip(sequence: u32, mark: u8, data: Seq<u8>)
    requires
        data.len() <= u32::MAX,
    ensures
        spec_decode_clipboard_chunk(chunk_body(sequence, mark, data)) == Ok::<_, ClipboardError>(
            Some((CLIPBOARD_ID, sequence, mark, data)),
        ),
{
    let m = chunk_body(sequence, mark, data);
    let s = u32_bytes(sequence as int);
    let l = u32_bytes(data.len() as int);
    assert(m.len() == 14 + data.len());
    assert(m[4] == CLIPBOARD_ID);
    assert(m[5] == s[0] && m[6] == s[1] && m[7] == s[2] && m[8] == s[3]);
    assert(m[9] == mark);
    assert(m[10] == l[0] && m[11] == l[1] && m[12] == l[2] && m[13] == l[3]);
    crate::wire::lemma_u32_roundtrip(sequence as int);
    crate::wire::lemma_u32_roundtrip(data.len() as int);
    assert(be32(m, 5) == be32(s, 0));
    assert(be32(m, 10) == be32(l, 0));
    assert(m.subrange(14, 14 + data.len() as int) =~= data);
}

/// Clipboard data built from a text gives that text back as its text entry.
pub proof fn lemma_text_entry_roundtrip(text: Seq<u8>)
    requires
        text.len() <= u32::MAX,
    ensures
        spec_text_entry(text_data(text)) == Ok::<_, ClipboardError>(Some(text)),
{
    let d = text_data(text);
    let c = u32_bytes(1);
    let f = u32_bytes(FORMAT_TEXT as int);
    let l = u32_bytes(text.len() as int);
    crate::wire::lemma_u32_roundtrip(1);
    crate::wire::lemma_u32_roundtrip(FORMAT_TEXT as int);
    crate::wire::lemma_u32_roundtrip(text.len() as int);
    assert(d.len() == 12 + text.len());
    assert(d[0] == c[0] && d[1] == c[1] && d[2] == c[2] && d[3] == c[3]);
    assert(d[4] == f[0] && d[5] == f[1] && d[6] == f[2] && d[7] == f[3]);
    assert(d[8] == l[0] && d[9] == l[1] && d[10] == l[2] && d[11] == l[3]);
    assert(be32(d, 0) == 1);
    assert(be32(d, 4) == FORMAT_TEXT);
    assert(be32(d, 8) == text.len());
    assert(d.subrange(12, 12 + text.len() as int) =~= text);
}

/// The pieces of `chunks_of` put back together give the whole, and none is
/// longer than `n`.
pub proof fn lemma_chunks_flatten(s: Seq<u8>, n: nat)
    requires
        n > 0,
    ensures
        chunks_of(s, n).flatten() == s,
        forall|i: int| 0 <= i < chunks_of(s, n).len() ==> #[trigger] chunks_of(s, n)[i].len() <= n,
    decreases s.len(),
{
    if s.len() == 0 {
        assert(s =~= Seq::<u8>::empty());
    } else if s.len() <= n {
        assert(seq![s].drop_first() =~= Seq::<Seq<u8>>::empty());
        assert(Seq::<Seq<u8>>::empty().flatten() =~= Seq::<u8>::empty());
        assert(seq![s].first() == s);
        assert(s + Seq::<u8>::empty() =~= s);
    } else {
        let rest = s.subrange(n as int, s.len() as int);
        lemma_chunks_flatten(rest, n);
        let cs = chunks_of(s, n);
        assert(cs.drop_first() =~= chunks_of(rest, n));
        assert(s.subrange(0, n as int) + rest =~= s);
        assert forall|i: int| 0 <= i < cs.len() implies #[trigger] cs[i].len() <= n by {
            if i > 0 {
                assert(cs[i] == chunks_of(rest, n)[i - 1]);
            }
        }
    }
}

proof fn lemma_encode_empty(c: Seq<char>)
    ensures
        encode_utf8(c).len() == 0 <==> c.len() == 0,
{
    broadcast use encode_utf8_decode_utf8;

    if c.len() == 0 {
        assert(encode_utf8(c) =~= Seq::<u8>::empty());
    }
    if encode_utf8(c).len() == 0 {
        assert(encode_utf8(c) =~= Seq::<u8>::empty());
        assert(decode_utf8(encode_utf8(c)) == c);
        assert(valid_utf8(Seq::<u8>::empty()));
        assert(decode_utf8(Seq::<u8>::empty()) =~= Seq::<char>::empty());
    }
}

/// The model after a data chunk.
pub open spec fn with_data(v: ClipboardView, piece: Seq<u8>) -> ClipboardView {
    ClipboardView { data: v.data + piece, ..v }
}

/// The model after a start chunk announcing `size`.
pub open spec fn started(v: ClipboardView, size: usize) -> ClipboardView {
    ClipboardView { expected_size: Some(size), data: Seq::empty(), ..v }
}

proof fn lemma_step_data(v: ClipboardView, sequence: u32, piece: Seq<u8>)
    requires
        piece.len() <= u32::MAX,
    ensures
        spec_handle_clipboard_message(v, chunk_body(sequence, CHUNK_DATA, piece)) == (
            with_data(v, piece),
            Ok::<Option<ContentView>, ClipboardError>(None),
        ),
{
    reveal(spec_handle_clipboard_message);
    lemma_chunk_roundtrip(sequence, CHUNK_DATA, piece);
}

proof fn lemma_step_start(v: ClipboardView, sequence: u32, size: usize)
    ensures
        spec_handle_clipboard_message(v, chunk_body(sequence, CHUNK_START, decimal(size as nat)))
            == (started(v, size), Ok::<Option<ContentView>, ClipboardError>(None)),
{
    reveal(spec_handle_clipboard_message);
    crate::text::lemma_parse_decimal(size);
    lemma_decimal_len(size as nat);
    lemma_chunk_roundtrip(sequence, CHUNK_START, decimal(size as nat));
}

proof fn lemma_step_end(v: ClipboardView, sequence: u32)
    requires
        v.expected_size == Some(v.data.len() as usize),
    ensures
        spec_handle_clipboard_message(v, chunk_body(sequence, CHUNK_END, Seq::empty())) == (
            transfer_reset(v),
            spec_extract_content(v.data),
        ),
{
    reveal(spec_handle_clipboard_message);
    lemma_chunk_roundtrip(sequence, CHUNK_END, Seq::empty());
}

proof fn lemma_receive_one_quiet(v: ClipboardView, msgs: Seq<Seq<u8>>, v1: ClipboardView)
    requires
        msgs.len() > 0,
        spec_handle_clipboard_message(v, msgs[0]) == (v1, Ok::<
            Option<ContentView>,
            ClipboardError,
        >(None)),
    ensures
        receive_all(v, msgs) == receive_all(v1, msgs.subrange(1, msgs.len() as int)),
{
    reveal(receive_all);
}

proof fn lemma_receive_data(
    v: ClipboardView,
    sequence: u32,
    pieces: Seq<Seq<u8>>,
    tail: Seq<Seq<u8>>,
)
    requires
        forall|i: int| 0 <= i < pieces.len() ==> #[trigger] pieces[i].len() <= u32::MAX,
    ensures
        receive_all(v, data_bodies(sequence, pieces) + tail) == receive_all(
            ClipboardView { data: v.data + pieces.flatten(), ..v },
            tail,
        ),
    decreases pieces.len(),
{
    let f = |c: Seq<u8>| chunk_body(sequence, CHUNK_DATA, c);
    if pieces.len() == 0 {
        assert(data_bodies(sequence, pieces) + tail =~= tail);
        assert(v.data + pieces.flatten() =~= v.data);
    } else {
        let p = pieces[0];
        let msgs = data_bodies(sequence, pieces) + tail;
        assert(msgs[0] == f(p));
        lemma_step_data(v, sequence, p);
        let v1 = with_data(v, p);
        lemma_receive_one_quiet(v, msgs, v1);
        let rest = pieces.drop_first();
        assert forall|i: int| 0 <= i < rest.len() implies #[trigger] rest[i].len() <= u32::MAX by {
            assert(rest[i] == pieces[i + 1]);
        }
        lemma_receive_data(v1, sequence, rest, tail);
        assert(msgs.subrange(1, msgs.len() as int) =~= data_bodies(sequence, rest) + tail);
        assert(v.data + pieces.flatten() =~= v1.data + rest.flatten());
    }
}

/// What one step's result adds to the list of contents to write.
pub open spec fn written(r: Result<Option<ContentView>, ClipboardError>) -> Result<
    Seq<ContentView>,
    ClipboardError,
> {
    match r {
        Err(e) => Err(e),
        Ok(None) => Ok(Seq::empty()),
        Ok(Some(c)) => Ok(seq![c]),
    }
}

/// The DCLP bodies that send a payload in pieces: a start chunk with the
/// payload size in decimal, a data chunk per piece, then an empty end chunk.
pub open spec fn transfer_bodies(sequence: u32, pieces: Seq<Seq<u8>>) -> Seq<Seq<u8>> {
    seq![chunk_body(sequence, CHUNK_START, decimal(pieces.flatten().len()))] + data_bodies(
        sequence,
        pieces,
    ) + seq![chunk_body(sequence, CHUNK_END, Seq::empty())]
}

/// A payload sent in pieces, however it is cut, gives what it gives when
/// sent as one single chunk: the same contents to write, or the same error,
/// and the same remembered texts; afterwards no transfer is in progress.
pub proof fn lemma_reassembly(v: ClipboardView, sequence: u32, pieces: Seq<Seq<u8>>)
    requires
        forall|i: int| 0 <= i < pieces.len() ==> #[trigger] pieces[i].len() <= u32::MAX,
        pieces.flatten().len() <= u32::MAX,
    ensures
        spec_handle_clipboard_message(
            v,
            chunk_body(sequence, CHUNK_SINGLE, pieces.flatten()),
        ).0 == v,
        receive_all(v, transfer_bodies(sequence, pieces)) == (
            transfer_reset(v),
            written(
                spec_handle_clipboard_message(
                    v,
                    chunk_body(sequence, CHUNK_SINGLE, pieces.flatten()),
                ).1,
            ),
        ),
{
    let p = pieces.flatten();
    let end = chunk_body(sequence, CHUNK_END, Seq::empty());
    let msgs = transfer_bodies(sequence, pieces);
    reveal(spec_handle_clipboard_message);
    lemma_chunk_roundtrip(sequence, CHUNK_SINGLE, p);
    lemma_step_start(v, sequence, p.len() as usize);
    let v1 = started(v, p.len() as usize);
    lemma_receive_one_quiet(v, msgs, v1);
    let rest = msgs.subrange(1, msgs.len() as int);
    assert(rest =~= data_bodies(sequence, pieces) + seq![end]);
    lemma_receive_data(v1, sequence, pieces, seq![end]);
    let v2 = ClipboardView { data: v1.data + p, ..v1 };
    assert(v2.data =~= p);
    lemma_step_end(v2, sequence);
    assert(transfer_reset(v2) == transfer_reset(v));
    reveal_with_fuel(receive_all, 2);
    assert(seq![end].subrange(1, 1) =~= Seq::<Seq<u8>>::empty());
    match spec_extract_content(p) {
        Err(e) => {},
        Ok(None) => {},
        Ok(Some(c)) => {
            assert(seq![c] + Seq::<ContentView>::empty() =~= seq![c]);
        },
    }
}

/// Receiving the messages that send a text, from any state, hands over
/// exactly that text (decoded, line endings normalised) and leaves no
/// transfer in progress.
pub proof fn lemma_text_transfer(v: ClipboardView, sequence: u32, text: Seq<u8>)
    requires
        valid_utf8(text),
        text.len() + 12 <= u32::MAX,
    ensures
        receive_all(v, text_bodies(sequence, text)) == (
            transfer_reset(v),
            Ok::<_, ClipboardError>(seq![ContentView::Text(normalized_text(decode_utf8(text)))]),
        ),
{
    let d = text_data(text);
    let pieces = chunks_of(d, CHUNK_SIZE as nat);
    lemma_chunks_flatten(d, CHUNK_SIZE as nat);
    lemma_text_entry_roundtrip(text);
    assert forall|i: int| 0 <= i < pieces.len() implies #[trigger] pieces[i].len() <= u32::MAX by {
    }
    assert(text_bodies(sequence, text) =~= transfer_bodies(sequence, pieces));
    lemma_reassembly(v, sequence, pieces);
    reveal(spec_handle_clipboard_message);
    lemma_chunk_roundtrip(sequence, CHUNK_SINGLE, d);
    assert(spec_extract_text(d) == Ok::<_, ClipboardError>(Some(normalized_text(decode_utf8(text)))));
}

spec fn pow10(k: nat) -> nat
    decreases k,
{
    if k == 0 {
        1
    } else {
        10 * pow10((k - 1) as nat)
    }
}

/// Local text handed to the server arrives whole: the messages start with
/// a grab, and the chunks after it, received in any state, give back the
/// text with its line endings normalised.
pub proof fn lemma_local_text_roundtrip(
    v: ClipboardView,
    w: ClipboardView,
    sequence: u32,
    text: Seq<char>,
)
    requires
        text.len() > 0,
        v.last_remote_text != Some(text),
        v.last_sent_text != Some(text),
        encode_utf8(text).len() + 12 <= u32::MAX,
    ensures
        spec_local_text_bodies(v, sequence, text)[0] == grab_body(sequence),
        receive_all(
            w,
            spec_local_text_bodies(v, sequence, text).subrange(
                1,
                spec_local_text_bodies(v, sequence, text).len() as int,
            ),
        ) == (
            transfer_reset(w),
            Ok::<_, ClipboardError>(seq![ContentView::Text(normalized_text(text))]),
        ),
{
    broadcast use encode_utf8_decode_utf8, encode_utf8_valid_utf8;

    let bytes = encode_utf8(text);
    let msgs = spec_local_text_bodies(v, sequence, text);
    assert(msgs.subrange(1, msgs.len() as int) =~= text_bodies(sequence, bytes));
    lemma_text_transfer(w, sequence, bytes);
}

proof fn lemma_decimal_len_below(n: nat, k: nat)
    requires
        k >= 1,
        n < pow10(k),
    ensures
        decimal(n).len() <= k,
    decreases k,
{
    if n >= 10 {
        let p = pow10((k - 1) as nat);
        if k == 1 {
            assert(pow10(1) == 10 * pow10(0));
        }
        assert(n / 10 < p) by (nonlinear_arith)
            requires
                n < 10 * p,
        ;
        lemma_decimal_len_below(n / 10, (k - 1) as nat);
    }
}

proof fn lemma_decimal_len(n: nat)
    requires
        n <= usize::MAX,
    ensures
        decimal(n).len() <= 20,
{
    reveal_with_fuel(pow10, 21);
    assert(pow10(20) == 100000000000000000000nat);
    lemma_decimal_len_below(n, 20);
}


/// Text just received from the server is not sent back to it.
pub proof fn lemma_remote_text_not_echoed(v: ClipboardView, sequence: u32, text: Seq<char>)
    ensures
        spec_local_text_bodies(with_remote_text(v, text), sequence, text).len() == 0,
{
}

/// Text already sent is not sent again.
pub proof fn lemma_sent_text_not_resent(v: ClipboardView, sequence: u32, text: Seq<char>)
    ensures
        spec_local_text_bodies(with_sent_text(v, text), sequence, text).len() == 0,
{
}

/// New, non-empty local text is sent: a grab of the clipboard, then the
/// text.
pub proof fn lemma_new_text_sent(v: ClipboardView, sequence: u32, text: Seq<char>)
    requires
        text.len() > 0,
        v.last_remote_text != Some(text),
        v.last_sent_text != Some(text),
    ensures
        spec_local_text_bodies(v, sequence, text) == seq![grab_body(sequence)] + text_bodies(
            sequence,
            encode_utf8(text),
        ),
{
}

/// Whether two byte strings are equal.
fn same_bytes(a: &[u8], b: &[u8]) -> (res: bool)
    ensures
        res == (a@ == b@),
{
    if a.len() != b.len() {
        return false;
    }
    let mut i: usize = 0;
    while i < a.len()
        invariant
            a@.len() == b@.len(),
            i <= a@.len(),
            forall|j: int| 0 <= j < i ==> a@[j] == b@[j],
        decreases a@.len() - i,
    {
        if a[i] != b[i] {
            return false;
        }
        i = i + 1;
    }
    proof {
        assert(a@ =~= b@);
    }
    true
}

/// Whether two strings hold the same text.
fn same_text(a: &str, b: &str) -> (res: bool)
    ensures
        res == (a@ == b@),
{
    let r = same_bytes(a.as_bytes(), b.as_bytes());
    proof {
        decode_utf8_encode_utf8_chars(a@);
        decode_utf8_encode_utf8_chars(b@);
    }
    r
}

proof fn decode_utf8_encode_utf8_chars(c: Seq<char>)
    ensures
        decode_utf8(encode_utf8(c)) == c,
{
    broadcast use encode_utf8_decode_utf8;

}

} // verus!
