//! The compact image format of a filesystem, carried as URL-safe Base64 text.
//!
//! The bytes are the magic `IFS1` followed by the list of root entries. A list
//! is its length as a little-endian `u32` followed by its entries; an entry is
//! its name as a field, a kind byte (0 file, 1 directory, 2 symbolic link) and
//! then the file's content as a field, the directory's list of children, or
//! the link's target as a field. A field is its byte length as a
//! little-endian `u32` followed by its bytes.
use vstd::prelude::*;
use base64::Engine as _;
use vstd::utf8::{decode_utf8, encode_utf8, valid_utf8};
use super::{copy_bytes, models_of, lemma_models_of, DataModel, EntryModel, Filesystem, FilesystemData, FilesystemEntry};

verus! {

broadcast use lemma_models_of;

/// The largest field that a reader accepts, in bytes.
pub const MAX_FIELD_SIZE: usize = 16777216;

/// The largest number of entries that a reader accepts in a whole image.
pub const MAX_ENTRIES: usize = 100000;

/// Why an image could not be read.
#[derive(Debug, Clone, PartialEq, Eq)]
pub enum EncodingError {
    InvalidBase64(String),
    InvalidFormat(&'static str),
    UnexpectedEnd,
    InvalidUtf8,
    FieldTooLarge,
    TooManyEntries,
}

/// The text that reports an error.
pub open spec fn encoding_message(e: EncodingError) -> Seq<char> {
    match e {
        EncodingError::InvalidBase64(error) => "invalid filesystem Base64: "@ + error@,
        EncodingError::InvalidFormat(message) => "invalid filesystem format: "@ + message@,
        EncodingError::UnexpectedEnd => "unexpected end of filesystem data"@,
        EncodingError::InvalidUtf8 => "filesystem contains invalid UTF-8"@,
        EncodingError::FieldTooLarge => "filesystem field is too large"@,
        EncodingError::TooManyEntries => "filesystem contains too many entries"@,
    }
}

impl EncodingError {
    /// The text that reports the error.
    pub fn to_string(&self) -> (res: String)
        ensures
            res@ == encoding_message(*self),
    {
        match self {
            EncodingError::InvalidBase64(error) => {
                let mut m = crate::text::owned("invalid filesystem Base64: ");
                crate::text::push_str(&mut m, error.as_str());
                m
            },
            EncodingError::InvalidFormat(message) => {
                let mut m = crate::text::owned("invalid filesystem format: ");
                crate::text::push_str(&mut m, message);
                m
            },
            EncodingError::UnexpectedEnd => crate::text::owned("unexpected end of filesystem data"),
            EncodingError::InvalidUtf8 => crate::text::owned("filesystem contains invalid UTF-8"),
            EncodingError::FieldTooLarge => crate::text::owned("filesystem field is too large"),
            EncodingError::TooManyEntries => crate::text::owned("filesystem contains too many entries"),
        }
    }
}

/// The ways in which the bytes of an image can be malformed.
#[derive(Debug, Clone, Copy, PartialEq, Eq, Structural)]
pub enum FormatError {
    WrongMagic,
    TrailingBytes,
    UnknownEntryType,
    UnexpectedEnd,
    InvalidUtf8,
    FieldTooLarge,
    TooManyEntries,
}

/// Whether `e` is the error that reports `k`.
pub open spec fn reports(e: EncodingError, k: FormatError) -> bool {
    match k {
        FormatError::WrongMagic => e matches EncodingError::InvalidFormat(m) && m@ == "wrong magic header"@,
        FormatError::TrailingBytes => e matches EncodingError::InvalidFormat(m) && m@ == "trailing bytes"@,
        FormatError::UnknownEntryType => e matches EncodingError::InvalidFormat(m) && m@ == "unknown entry type"@,
        FormatError::UnexpectedEnd => e is UnexpectedEnd,
        FormatError::InvalidUtf8 => e is InvalidUtf8,
        FormatError::FieldTooLarge => e is FieldTooLarge,
        FormatError::TooManyEntries => e is TooManyEntries,
    }
}

pub open spec fn magic() -> Seq<u8> {
    seq![73u8, 70u8, 83u8, 49u8]
}

/// The little-endian bytes of `v`.
pub open spec fn u32_le(v: u32) -> Seq<u8> {
    seq![
        (v % 256) as u8,
        ((v / 256) % 256) as u8,
        ((v / 65536) % 256) as u8,
        ((v / 16777216) % 256) as u8,
    ]
}

/// The `u32` whose little-endian bytes start at `p`.
pub open spec fn u32_at(b: Seq<u8>, p: int) -> int {
    b[p] + b[p + 1] * 256 + b[p + 2] * 65536 + b[p + 3] * 16777216
}

/// A field: the byte length (as a `u32`) and then the bytes.
pub open spec fn field(bytes: Seq<u8>) -> Seq<u8> {
    u32_le(bytes.len() as u32) + bytes
}

/// The bytes of one entry.
pub open spec fn encode_entry(e: EntryModel) -> Seq<u8>
    decreases e,
{
    field(encode_utf8(e.name)) + match e.data {
        DataModel::File(c) => seq![0u8] + field(c),
        DataModel::Directory(ch) => seq![1u8] + u32_le(ch.len() as u32) + encode_items(ch),
        DataModel::SymbolicLink(t) => seq![2u8] + field(encode_utf8(t)),
    }
}

/// The bytes of the entries of a list, one after the other.
pub open spec fn encode_items(s: Seq<EntryModel>) -> Seq<u8>
    decreases s,
{
    if s.len() == 0 {
        Seq::empty()
    } else {
        encode_entry(s[0]) + encode_items(s.drop_first())
    }
}

/// The bytes of a list: its length and then its entries.
pub open spec fn encode_list(s: Seq<EntryModel>) -> Seq<u8> {
    u32_le(s.len() as u32) + encode_items(s)
}

/// The bytes of a whole image.
pub open spec fn image_bytes(fs: Seq<EntryModel>) -> Seq<u8> {
    magic() + encode_list(fs)
}

/// Reads the field that starts at `pos`: its bytes and the position after it.
pub open spec fn read_field(b: Seq<u8>, pos: int) -> Result<(Seq<u8>, int), FormatError> {
    if pos + 4 > b.len() {
        Err(FormatError::UnexpectedEnd)
    } else {
        let n = u32_at(b, pos);
        if n > MAX_FIELD_SIZE {
            Err(FormatError::FieldTooLarge)
        } else if pos + 4 + n > b.len() {
            Err(FormatError::UnexpectedEnd)
        } else {
            Ok((b.subrange(pos + 4, pos + 4 + n), pos + 4 + n))
        }
    }
}

/// Reads the list that starts at `pos`, when `used` entries have been counted
/// so far: the entries, the position after the list, and the new count.
pub open spec fn parse_list(b: Seq<u8>, pos: int, used: int) -> Result<(Seq<EntryModel>, int, int), FormatError>
    decreases b.len() - pos, 2int, 0int,
{
    if pos < 0 || pos + 4 > b.len() {
        Err(FormatError::UnexpectedEnd)
    } else {
        let count = u32_at(b, pos);
        if count > (if used <= MAX_ENTRIES { MAX_ENTRIES - used } else { 0 }) {
            Err(FormatError::TooManyEntries)
        } else {
            parse_items(b, pos + 4, used + count, count as nat, Seq::empty())
        }
    }
}

/// Reads `remaining` more entries from `pos` after the entries `acc`.
pub open spec fn parse_items(b: Seq<u8>, pos: int, used: int, remaining: nat, acc: Seq<EntryModel>) -> Result<(Seq<EntryModel>, int, int), FormatError>
    decreases b.len() - pos, 1int, remaining,
{
    if remaining == 0 {
        Ok((acc, pos, used))
    } else if pos < 0 || pos > b.len() {
        Err(FormatError::UnexpectedEnd)
    } else {
        match parse_entry(b, pos, used) {
            Err(e) => Err(e),
            Ok((e, p, u)) => if pos < p <= b.len() {
                parse_items(b, p, u, (remaining - 1) as nat, acc.push(e))
            } else {
                Err(FormatError::UnexpectedEnd)
            },
        }
    }
}

/// Reads the entry that starts at `pos`.
pub open spec fn parse_entry(b: Seq<u8>, pos: int, used: int) -> Result<(EntryModel, int, int), FormatError>
    decreases b.len() - pos, 0int, 0int,
{
    if pos < 0 || pos > b.len() {
        Err(FormatError::UnexpectedEnd)
    } else {
        match read_field(b, pos) {
            Err(e) => Err(e),
            Ok((name_bytes, p)) => if !valid_utf8(name_bytes) {
                Err(FormatError::InvalidUtf8)
            } else if p >= b.len() {
                Err(FormatError::UnexpectedEnd)
            } else {
                let name = decode_utf8(name_bytes);
                let kind = b[p];
                if kind == 0 {
                    match read_field(b, p + 1) {
                        Err(e) => Err(e),
                        Ok((c, q)) => Ok((EntryModel { name, data: DataModel::File(c) }, q, used)),
                    }
                } else if kind == 1 {
                    match parse_list(b, p + 1, used) {
                        Err(e) => Err(e),
                        Ok((ch, q, u)) => Ok(
                            (EntryModel { name, data: DataModel::Directory(ch) }, q, u),
                        ),
                    }
                } else if kind == 2 {
                    match read_field(b, p + 1) {
                        Err(e) => Err(e),
                        Ok((t, q)) => if !valid_utf8(t) {
                            Err(FormatError::InvalidUtf8)
                        } else {
                            Ok(
                                (
                                    EntryModel { name, data: DataModel::SymbolicLink(decode_utf8(t)) },
                                    q,
                                    used,
                                ),
                            )
                        },
                    }
                } else {
                    Err(FormatError::UnknownEntryType)
                }
            },
        }
    }
}

/// The filesystem that the bytes of an image hold, or what is wrong with them.
pub open spec fn decode_bytes(b: Seq<u8>) -> Result<Seq<EntryModel>, FormatError> {
    if b.len() < 4 || b.subrange(0, 4) != magic() {
        Err(FormatError::WrongMagic)
    } else {
        match parse_list(b.skip(4), 0, 0) {
            Err(e) => Err(e),
            Ok((s, p, _)) => if p == b.len() - 4 {
                Ok(s)
            } else {
                Err(FormatError::TrailingBytes)
            },
        }
    }
}

/// The URL-safe, unpadded Base64 text of `bytes`, as the `base64` crate computes it.
pub uninterp spec fn base64_url_encoded(bytes: Seq<u8>) -> Seq<char>;

/// The bytes that a URL-safe, unpadded Base64 text stands for, as the `base64`
/// crate decodes it; `None` when it rejects the text.
pub uninterp spec fn base64_url_decoded(text: Seq<char>) -> Option<Seq<u8>>;

/// The text that the `base64` crate's `DecodeError` shows (its `Display`)
/// when the URL-safe, unpadded engine refuses `text`.
pub uninterp spec fn base64_url_decode_error_text(text: Seq<char>) -> Seq<char>;

/// Calls `Engine::encode` of `base64`'s `URL_SAFE_NO_PAD` engine. Trusted: the
/// text is the named encoding of the bytes, and decoding it with the same
/// engine gives the bytes back (unpadded output, and the engine requires no
/// padding and canonical trailing bits). The length bound keeps the crate's
/// size computation from overflowing, where it would panic.
#[verifier::external_body]
fn base64_encode(bytes: &[u8]) -> (res: String)
    requires
        bytes@.len() <= usize::MAX / 2,
    ensures
        res@ == base64_url_encoded(bytes@),
        base64_url_decoded(res@) == Some(bytes@),
{
    base64::engine::general_purpose::URL_SAFE_NO_PAD.encode(bytes)
}

/// Calls `Engine::decode` of `base64`'s `URL_SAFE_NO_PAD` engine on the
/// bytes of `text`, an error given as its `Display` text. Trusted: it
/// succeeds exactly when the named decoding is defined, and then gives those
/// bytes; otherwise it gives the named text of the error for that text.
#[verifier::external_body]
fn base64_decode(text: &str) -> (res: Result<Vec<u8>, String>)
    ensures
        res is Ok <==> base64_url_decoded(text@) is Some,
        res matches Ok(v) ==> v@ == base64_url_decoded(text@)->0,
        res matches Err(m) ==> m@ == base64_url_decode_error_text(text@),
{
    match base64::engine::general_purpose::URL_SAFE_NO_PAD.decode(text) {
        Ok(v) => Ok(v),
        Err(e) => Err(e.to_string()),
    }
}

/// Calls `String::from_utf8`. Trusted, as std documents it: the bytes are
/// accepted exactly when they are valid UTF-8, and the string holds the
/// characters they encode.
#[verifier::external_body]
fn string_from_utf8(bytes: Vec<u8>) -> (res: Option<String>)
    ensures
        res is Some <==> valid_utf8(bytes@),
        res matches Some(s) ==> s@ == decode_utf8(bytes@),
{
    String::from_utf8(bytes).ok()
}


fn write_u32(output: &mut Vec<u8>, value: u32)
    ensures
        final(output)@ == old(output)@ + u32_le(value),
{
    output.push((value % 256) as u8);
    output.push(((value / 256) % 256) as u8);
    output.push(((value / 65536) % 256) as u8);
    output.push(((value / 16777216) % 256) as u8);
    assert(final(output)@ =~= old(output)@ + u32_le(value));
}

fn write_bytes(output: &mut Vec<u8>, value: &[u8])
    ensures
        final(output)@ == old(output)@ + field(value@),
{
    write_u32(output, value.len() as u32);
    let ghost start = output@;
    let mut i: usize = 0;
    while i < value.len()
        invariant
            i <= value@.len(),
            output@ == start + value@.take(i as int),
        decreases value@.len() - i,
    {
        output.push(value[i]);
        assert(output@ =~= start + value@.take(i + 1));
        i = i + 1;
    }
    assert(value@.take(value@.len() as int) =~= value@);
    assert(output@ =~= old(output)@ + field(value@));
}

proof fn lemma_encode_items_push(s: Seq<EntryModel>, e: EntryModel)
    ensures
        encode_items(s.push(e)) == encode_items(s) + encode_entry(e),
    decreases s.len(),
{
    let t = s.push(e);
    if s.len() == 0 {
        assert(t.drop_first() =~= Seq::<EntryModel>::empty());
        assert(t[0] == e);
        assert(encode_items(t.drop_first()) == Seq::<u8>::empty());
        assert(encode_items(t) == encode_entry(e) + encode_items(t.drop_first()));
        assert(encode_items(t) =~= encode_items(s) + encode_entry(e));
    } else {
        lemma_encode_items_push(s.drop_first(), e);
        assert(t.drop_first() =~= s.drop_first().push(e));
        assert(t[0] == s[0]);
        assert(encode_items(t) == encode_entry(s[0]) + encode_items(t.drop_first()));
        assert(encode_items(s) == encode_entry(s[0]) + encode_items(s.drop_first()));
        assert(encode_items(t) =~= encode_items(s) + encode_entry(e));
    }
}

fn encode_entry_into(output: &mut Vec<u8>, entry: &FilesystemEntry)
    ensures
        final(output)@ == old(output)@ + encode_entry(entry.model()),
    decreases entry,
{
    let ghost start = output@;
    write_bytes(output, entry.name.as_str().as_bytes());
    match &entry.data {
        FilesystemData::File { content } => {
            output.push(0);
            write_bytes(output, content.as_slice());
        },
        FilesystemData::Directory { children } => {
            output.push(1);
            proof {
                assert(decreases_to!(entry.data => entry.data->children));
                assert(decreases_to!(entry => entry.data));
            }
            encode_entries(output, children);
        },
        FilesystemData::SymbolicLink { target } => {
            output.push(2);
            write_bytes(output, target.as_str().as_bytes());
        },
    }
    assert(output@ =~= start + encode_entry(entry.model()));
}

/// Appends the bytes of the list `entries` to `output`.
fn encode_entries(output: &mut Vec<u8>, entries: &Vec<FilesystemEntry>)
    ensures
        final(output)@ == old(output)@ + encode_list(models_of(entries@)),
    decreases entries,
{
    let ghost m = models_of(entries@);
    write_u32(output, entries.len() as u32);
    let ghost start = output@;
    let mut i: usize = 0;
    assert(m.take(0) =~= Seq::<EntryModel>::empty());
    while i < entries.len()
        invariant
            i <= entries@.len(),
            m == models_of(entries@),
            output@ == start + encode_items(m.take(i as int)),
        decreases entries@.len() - i,
    {
        proof {
            assert(decreases_to!(entries => entries@[i as int]));
            lemma_encode_items_push(m.take(i as int), m[i as int]);
            assert(m.take(i + 1) =~= m.take(i as int).push(m[i as int]));
        }
        encode_entry_into(output, &entries[i]);
        assert(output@ =~= start + encode_items(m.take(i + 1)));
        i = i + 1;
    }
    assert(m.take(entries@.len() as int) =~= m);
    assert(final(output)@ =~= old(output)@ + encode_list(m));
}

/// The bytes of the image of `filesystem`.
pub fn encode_image(filesystem: &Filesystem) -> (res: Vec<u8>)
    ensures
        res@ == image_bytes(filesystem@),
{
    let mut bytes: Vec<u8> = vec![73u8, 70u8, 83u8, 49u8];
    assert(bytes@ =~= magic());
    encode_entries(&mut bytes, &filesystem.root);
    bytes
}

/// The Base64 text of the image of `filesystem`.
pub fn encode(filesystem: &Filesystem) -> (res: String)
    requires
        image_bytes(filesystem@).len() <= usize::MAX / 2,
    ensures
        res@ == base64_url_encoded(image_bytes(filesystem@)),
        base64_url_decoded(res@) == Some(image_bytes(filesystem@)),
{
    let bytes = encode_image(filesystem);
    base64_encode(bytes.as_slice())
}

/// Reads an image from its bytes.
struct Reader<'a> {
    bytes: &'a [u8],
    position: usize,
    entries: usize,
}

impl<'a> Reader<'a> {
    fn new(bytes: &'a [u8]) -> (res: Self)
        ensures
            res.bytes@ == bytes@,
            res.position == 0,
            res.entries == 0,
    {
        Self { bytes, position: 0, entries: 0 }
    }

    fn is_empty(&self) -> (res: bool)
        ensures
            res == (self.position == self.bytes@.len()),
    {
        self.position == self.bytes.len()
    }

    fn read_u32(&mut self) -> (res: Result<u32, EncodingError>)
        requires
            old(self).position <= old(self).bytes@.len(),
        ensures
            final(self).bytes == old(self).bytes,
            final(self).entries == old(self).entries,
            if old(self).position + 4 > old(self).bytes@.len() {
                res is Err && reports(res->Err_0, FormatError::UnexpectedEnd) && final(self).position
                    == old(self).position
            } else {
                res == Ok::<u32, EncodingError>(u32_at(old(self).bytes@, old(self).position as int) as u32)
                    && final(self).position == old(self).position + 4
            },
    {
        if self.bytes.len() - self.position < 4 {
            return Err(EncodingError::UnexpectedEnd);
        }
        let p = self.position;
        let v: u32 = self.bytes[p] as u32 + self.bytes[p + 1] as u32 * 256 + self.bytes[p + 2] as u32
            * 65536 + self.bytes[p + 3] as u32 * 16777216;
        self.position = p + 4;
        Ok(v)
    }

    fn read_bytes(&mut self) -> (res: Result<&'a [u8], EncodingError>)
        requires
            old(self).position <= old(self).bytes@.len(),
        ensures
            final(self).bytes == old(self).bytes,
            final(self).entries == old(self).entries,
            match read_field(old(self).bytes@, old(self).position as int) {
                Ok((v, p)) => res is Ok && res->Ok_0@ == v && final(self).position == p,
                Err(k) => res is Err && reports(res->Err_0, k),
            },
            final(self).position <= final(self).bytes@.len(),
    {
        let length = self.read_u32()? as usize;
        if length > MAX_FIELD_SIZE {
            return Err(EncodingError::FieldTooLarge);
        }
        if self.bytes.len() - self.position < length {
            return Err(EncodingError::UnexpectedEnd);
        }
        let end = self.position + length;
        let value = &self.bytes[self.position..end];
        self.position = end;
        Ok(value)
    }

    fn read_entry(&mut self) -> (res: Result<FilesystemEntry, EncodingError>)
        requires
            old(self).position <= old(self).bytes@.len(),
        ensures
            final(self).bytes == old(self).bytes,
            match parse_entry(old(self).bytes@, old(self).position as int, old(self).entries as int) {
                Ok((e, p, u)) => res is Ok && res->Ok_0.model() == e && final(self).position == p
                    && final(self).entries == u && old(self).position < p <= old(self).bytes@.len(),
                Err(k) => res is Err && reports(res->Err_0, k),
            },
        decreases old(self).bytes@.len() - old(self).position,
    {
        let name_bytes = self.read_bytes()?;
        let name = match string_from_utf8(copy_bytes(name_bytes)) {
            Some(n) => n,
            None => return Err(EncodingError::InvalidUtf8),
        };
        if self.position >= self.bytes.len() {
            return Err(EncodingError::UnexpectedEnd);
        }
        let kind = self.bytes[self.position];
        self.position = self.position + 1;
        if kind == 0 {
            let content = self.read_bytes()?;
            Ok(FilesystemEntry { name, data: FilesystemData::File { content: copy_bytes(content) } })
        } else if kind == 1 {
            let mut children: Vec<FilesystemEntry> = Vec::new();
            self.read_entries(&mut children)?;
            assert(models_of(children@) =~= Seq::<EntryModel>::empty() + models_of(children@));
            Ok(FilesystemEntry { name, data: FilesystemData::Directory { children } })
        } else if kind == 2 {
            let target_bytes = self.read_bytes()?;
            match string_from_utf8(copy_bytes(target_bytes)) {
                Some(target) => Ok(FilesystemEntry { name, data: FilesystemData::SymbolicLink { target } }),
                None => Err(EncodingError::InvalidUtf8),
            }
        } else {
            Err(EncodingError::InvalidFormat("unknown entry type"))
        }
    }

    /// Reads a list and appends its entries to `output`.
    fn read_entries(&mut self, output: &mut Vec<FilesystemEntry>) -> (res: Result<(), EncodingError>)
        requires
            old(self).position <= old(self).bytes@.len(),
        ensures
            final(self).bytes == old(self).bytes,
            match parse_list(old(self).bytes@, old(self).position as int, old(self).entries as int) {
                Ok((s, p, u)) => res is Ok && models_of(final(output)@) == models_of(old(output)@) + s
                    && final(self).position == p && final(self).entries == u
                    && old(self).position < p <= old(self).bytes@.len(),
                Err(k) => res is Err && reports(res->Err_0, k),
            },
        decreases old(self).bytes@.len() - old(self).position,
    {
        let ghost b = self.bytes@;
        let ghost p0 = self.position as int;
        let ghost u0 = self.entries as int;
        let count = self.read_u32()? as usize;
        if count > MAX_ENTRIES.saturating_sub(self.entries) {
            return Err(EncodingError::TooManyEntries);
        }
        self.entries = self.entries + count;
        let ghost base = models_of(output@);
        let mut k: usize = 0;
        assert(models_of(output@).skip(base.len() as int) =~= Seq::<EntryModel>::empty());
        while k < count
            invariant
                self.bytes == old(self).bytes,
                self.bytes@ == b,
                p0 == old(self).position,
                u0 == old(self).entries,
                p0 < self.position <= b.len(),
                k <= count,
                models_of(output@).take(base.len() as int) == base,
                base.len() <= models_of(output@).len(),
                parse_list(b, p0, u0) == parse_items(
                    b,
                    self.position as int,
                    self.entries as int,
                    (count - k) as nat,
                    models_of(output@).skip(base.len() as int),
                ),
            decreases count - k,
        {
            let ghost acc = models_of(output@).skip(base.len() as int);
            let ghost pos = self.position as int;
            let ghost used = self.entries as int;
            let e = match self.read_entry() {
                Ok(e) => e,
                Err(err) => {
                    assert(parse_items(b, pos, used, (count - k) as nat, acc) == match parse_entry(
                        b,
                        pos,
                        used,
                    ) {
                        Err(e) => Err(e),
                        Ok((e, p, u)) => if pos < p <= b.len() {
                            parse_items(b, p, u, (count - k - 1) as nat, acc.push(e))
                        } else {
                            Err(FormatError::UnexpectedEnd)
                        },
                    });
                    return Err(err);
                },
            };
            proof {
                lemma_models_push(output@, e);
            }
            output.push(e);
            assert(models_of(output@).skip(base.len() as int) =~= acc.push(e.model()));
            assert(models_of(output@).take(base.len() as int) =~= base);
            k = k + 1;
        }
        assert(models_of(output@) =~= base + models_of(output@).skip(base.len() as int));
        Ok(())
    }
}

/// The filesystem that the Base64 text `value` holds.
pub fn decode(value: &str) -> (res: Result<Filesystem, EncodingError>)
    ensures
        match base64_url_decoded(value@) {
            None => res matches Err(EncodingError::InvalidBase64(m)) && m@ == base64_url_decode_error_text(value@),
            Some(b) => match decode_bytes(b) {
                Ok(s) => res is Ok && res->Ok_0@ == s,
                Err(k) => res is Err && reports(res->Err_0, k),
            },
        },
{
    match base64_decode(value) {
        Ok(b) => decode_image(b.as_slice()),
        Err(m) => Err(EncodingError::InvalidBase64(m)),
    }
}

/// The filesystem whose image `bytes` holds, or the first malformation met.
pub fn decode_image(bytes: &[u8]) -> (res: Result<Filesystem, EncodingError>)
    ensures
        match decode_bytes(bytes@) {
            Ok(s) => res is Ok && res->Ok_0@ == s,
            Err(k) => res is Err && reports(res->Err_0, k),
        },
{
    if bytes.len() < 4 || bytes[0] != 73 || bytes[1] != 70 || bytes[2] != 83 || bytes[3] != 49 {
        proof {
            if bytes@.len() >= 4 {
                assert(bytes@.subrange(0, 4) != magic()) by {
                    if bytes@.subrange(0, 4) == magic() {
                        assert(bytes@.subrange(0, 4)[0] == bytes@[0]);
                        assert(bytes@.subrange(0, 4)[1] == bytes@[1]);
                        assert(bytes@.subrange(0, 4)[2] == bytes@[2]);
                        assert(bytes@.subrange(0, 4)[3] == bytes@[3]);
                    }
                }
            }
        }
        return Err(EncodingError::InvalidFormat("wrong magic header"));
    }
    assert(bytes@.subrange(0, 4) =~= magic());
    let (_, rest) = bytes.split_at(4);
    assert(rest@ =~= bytes@.skip(4));
    let mut reader = Reader::new(rest);
    let mut entries: Vec<FilesystemEntry> = Vec::new();
    reader.read_entries(&mut entries)?;
    assert(models_of(entries@) =~= Seq::<EntryModel>::empty() + models_of(entries@));
    if !reader.is_empty() {
        return Err(EncodingError::InvalidFormat("trailing bytes"));
    }
    Ok(Filesystem { root: entries })
}

proof fn lemma_models_push(s: Seq<FilesystemEntry>, e: FilesystemEntry)
    ensures
        models_of(s.push(e)) == models_of(s).push(e.model()),
{
    assert(models_of(s.push(e)) =~= models_of(s).push(e.model()));
}


/// Whether every field of an entry fits the reader's field limit.
pub open spec fn fields_fit(e: EntryModel) -> bool
    decreases e,
{
    &&& encode_utf8(e.name).len() <= MAX_FIELD_SIZE
    &&& match e.data {
        DataModel::File(c) => c.len() <= MAX_FIELD_SIZE,
        DataModel::Directory(ch) => items_fit(ch),
        DataModel::SymbolicLink(t) => encode_utf8(t).len() <= MAX_FIELD_SIZE,
    }
}

pub open spec fn items_fit(s: Seq<EntryModel>) -> bool
    decreases s,
{
    s.len() == 0 || (fields_fit(s[0]) && items_fit(s.drop_first()))
}

/// The number of entries that a reader counts below an entry.
pub open spec fn inner_nodes(e: EntryModel) -> nat
    decreases e,
{
    match e.data {
        DataModel::Directory(ch) => ch.len() + items_nodes(ch),
        _ => 0,
    }
}

pub open spec fn items_nodes(s: Seq<EntryModel>) -> nat
    decreases s,
{
    if s.len() == 0 {
        0
    } else {
        inner_nodes(s[0]) + items_nodes(s.drop_first())
    }
}

/// The number of entries of a whole filesystem, at any depth.
pub open spec fn total_entries(fs: Seq<EntryModel>) -> nat {
    fs.len() + items_nodes(fs)
}

/// Whether a filesystem is within the limits that a reader accepts: no field
/// larger than `MAX_FIELD_SIZE` bytes and at most `MAX_ENTRIES` entries in all.
pub open spec fn within_limits(fs: Seq<EntryModel>) -> bool {
    items_fit(fs) && total_entries(fs) <= MAX_ENTRIES
}

proof fn lemma_u32_le_value(v: u32)
    ensures
        u32_at(u32_le(v), 0) == v,
{
    let b = u32_le(v);
    assert(((v % 256) as u8) as int + (((v / 256) % 256) as u8) as int * 256 + (((v / 65536)
        % 256) as u8) as int * 65536 + (((v / 16777216) % 256) as u8) as int * 16777216 == v)
        by (bit_vector);
}

/// `x + y` sits at `pos` in `b`: so do `x` and, after it, `y`.
proof fn lemma_split_at(b: Seq<u8>, pos: int, x: Seq<u8>, y: Seq<u8>)
    requires
        0 <= pos,
        pos + x.len() + y.len() <= b.len(),
        b.subrange(pos, pos + x.len() + y.len()) == x + y,
    ensures
        b.subrange(pos, pos + x.len()) == x,
        b.subrange(pos + x.len(), pos + x.len() + y.len()) == y,
{
    assert forall|i: int| 0 <= i < x.len() implies b.subrange(pos, pos + x.len())[i] == x[i] by {
        assert(b.subrange(pos, pos + x.len() + y.len())[i] == (x + y)[i]);
    }
    assert forall|i: int| 0 <= i < y.len() implies b.subrange(
        pos + x.len(),
        pos + x.len() + y.len(),
    )[i] == y[i] by {
        assert(b.subrange(pos, pos + x.len() + y.len())[x.len() + i] == (x + y)[x.len() + i]);
        assert(b.subrange(pos, pos + x.len() + y.len())[x.len() + i] == b[pos + x.len() + i]);
        assert(b.subrange(pos + x.len(), pos + x.len() + y.len())[i] == b[pos + x.len() + i]);
    }
    assert(b.subrange(pos, pos + x.len()) =~= x);
    assert(b.subrange(pos + x.len(), pos + x.len() + y.len()) =~= y);
}

proof fn lemma_u32_in(b: Seq<u8>, pos: int, v: u32)
    requires
        0 <= pos,
        pos + 4 <= b.len(),
        b.subrange(pos, pos + 4) == u32_le(v),
    ensures
        u32_at(b, pos) == v,
{
    lemma_u32_le_value(v);
    let w = u32_le(v);
    assert(b[pos] == b.subrange(pos, pos + 4)[0]);
    assert(b[pos + 1] == b.subrange(pos, pos + 4)[1]);
    assert(b[pos + 2] == b.subrange(pos, pos + 4)[2]);
    assert(b[pos + 3] == b.subrange(pos, pos + 4)[3]);
}

proof fn lemma_read_field_encoded(b: Seq<u8>, pos: int, bytes: Seq<u8>)
    requires
        0 <= pos,
        bytes.len() <= MAX_FIELD_SIZE,
        pos + field(bytes).len() <= b.len(),
        b.subrange(pos, pos + field(bytes).len()) == field(bytes),
    ensures
        read_field(b, pos) == Ok::<(Seq<u8>, int), FormatError>((bytes, pos + field(bytes).len())),
{
    lemma_split_at(b, pos, u32_le(bytes.len() as u32), bytes);
    lemma_u32_in(b, pos, bytes.len() as u32);
}

#[verifier::spinoff_prover]
#[verifier::rlimit(50)]
proof fn lemma_parse_entry_encoded(b: Seq<u8>, pos: int, used: int, e: EntryModel)
    requires
        0 <= pos,
        0 <= used,
        pos + encode_entry(e).len() <= b.len(),
        b.subrange(pos, pos + encode_entry(e).len()) == encode_entry(e),
        fields_fit(e),
        used + inner_nodes(e) <= MAX_ENTRIES,
    ensures
        parse_entry(b, pos, used) == Ok::<(EntryModel, int, int), FormatError>(
            (e, pos + encode_entry(e).len(), used + inner_nodes(e)),
        ),
    decreases e,
{
    broadcast use vstd::utf8::group_utf8_lib;

    let nf = field(encode_utf8(e.name));
    let tail = match e.data {
        DataModel::File(c) => seq![0u8] + field(c),
        DataModel::Directory(ch) => seq![1u8] + u32_le(ch.len() as u32) + encode_items(ch),
        DataModel::SymbolicLink(t) => seq![2u8] + field(encode_utf8(t)),
    };
    assert(encode_entry(e) == nf + tail);
    lemma_split_at(b, pos, nf, tail);
    lemma_read_field_encoded(b, pos, encode_utf8(e.name));
    let p = pos + nf.len();
    assert(b[p] == b.subrange(p, p + tail.len())[0]);
    match e.data {
        DataModel::File(c) => {
            lemma_split_at(b, p, seq![0u8], field(c));
            lemma_read_field_encoded(b, p + 1, c);
        },
        DataModel::Directory(ch) => {
            assert(tail =~= seq![1u8] + (u32_le(ch.len() as u32) + encode_items(ch)));
            lemma_split_at(b, p, seq![1u8], u32_le(ch.len() as u32) + encode_items(ch));
            lemma_split_at(b, p + 1, u32_le(ch.len() as u32), encode_items(ch));
            lemma_u32_in(b, p + 1, ch.len() as u32);
            assert(decreases_to!(e => e.data));
            lemma_parse_items_encoded(b, p + 5, used + ch.len(), ch, Seq::empty());
            assert(Seq::<EntryModel>::empty() + ch =~= ch);
        },
        DataModel::SymbolicLink(t) => {
            lemma_split_at(b, p, seq![2u8], field(encode_utf8(t)));
            lemma_read_field_encoded(b, p + 1, encode_utf8(t));
        },
    }
}

proof fn lemma_parse_items_encoded(b: Seq<u8>, pos: int, used: int, s: Seq<EntryModel>, acc: Seq<EntryModel>)
    requires
        0 <= pos,
        0 <= used,
        pos + encode_items(s).len() <= b.len(),
        b.subrange(pos, pos + encode_items(s).len()) == encode_items(s),
        items_fit(s),
        used + items_nodes(s) <= MAX_ENTRIES,
    ensures
        parse_items(b, pos, used, s.len(), acc) == Ok::<(Seq<EntryModel>, int, int), FormatError>(
            (acc + s, pos + encode_items(s).len(), used + items_nodes(s)),
        ),
    decreases s,
{
    if s.len() == 0 {
        assert(acc + s =~= acc);
    } else {
        let x = encode_entry(s[0]);
        let y = encode_items(s.drop_first());
        lemma_split_at(b, pos, x, y);
        lemma_parse_entry_encoded(b, pos, used, s[0]);
        lemma_encoded_entry_nonempty(s[0]);
        lemma_parse_items_encoded(
            b,
            pos + x.len(),
            used + inner_nodes(s[0]),
            s.drop_first(),
            acc.push(s[0]),
        );
        assert(acc.push(s[0]) + s.drop_first() =~= acc + s);
        assert((s.len() - 1) as nat == s.drop_first().len());
    }
}

proof fn lemma_encoded_entry_nonempty(e: EntryModel)
    ensures
        encode_entry(e).len() >= 5,
{
}

/// Law: the text that `encode` gives for a filesystem within the reader's
/// limits decodes (its Base64 first, then its image) to that filesystem, so
/// `decode` gives it back. `encode` itself needs the image to fit in half
/// the address space.
pub proof fn law_decode_after_encode(fs: Seq<EntryModel>, text: Seq<char>)
    requires
        within_limits(fs),
        base64_url_decoded(text) == Some(image_bytes(fs)),
    ensures
        base64_url_decoded(text) matches Some(b) && decode_bytes(b) == Ok::<Seq<EntryModel>, FormatError>(fs),
{
    law_image_bytes_round_trip(fs);
}

/// Law: the bytes of the image of a filesystem within the reader's limits
/// read back as that same filesystem.
#[verifier::spinoff_prover]
pub proof fn law_image_bytes_round_trip(fs: Seq<EntryModel>)
    requires
        within_limits(fs),
    ensures
        decode_bytes(image_bytes(fs)) == Ok::<Seq<EntryModel>, FormatError>(fs),
{
    let b = image_bytes(fs);
    let l = encode_list(fs);
    assert(b.subrange(0, 4) =~= magic());
    assert(b.skip(4) =~= l);
    assert(l.subrange(0, l.len() as int) =~= l);
    lemma_split_at(l, 0, u32_le(fs.len() as u32), encode_items(fs));
    lemma_u32_in(l, 0, fs.len() as u32);
    assert(u32_at(l, 0) == fs.len());
    lemma_parse_items_encoded(l, 4, fs.len() as int, fs, Seq::empty());
    assert(Seq::<EntryModel>::empty() + fs =~= fs);
    assert(parse_list(l, 0, 0) == Ok::<(Seq<EntryModel>, int, int), FormatError>(
        (fs, l.len() as int, total_entries(fs) as int),
    ));
}

} // verus!
