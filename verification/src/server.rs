//! The decisions of the HTTP endpoint: which multipart fields it reads, what
//! they set, and which status each failure is answered with.

use vstd::prelude::*;

use crate::cli::{background_error, background_from, input_extension, parse_background, upload_extension};
use crate::matting::{str_opt_view, Background};
use crate::text::is_literal;

verus! {

/// An error answer: an HTTP status and the message sent with it.
#[derive(Debug, PartialEq, Eq)]
pub struct ApiError {
    pub status: u16,
    pub message: String,
}

impl ApiError {
    /// An error answer with the given status and message.
    pub fn new(status: u16, message: String) -> (res: ApiError)
        ensures
            res.status == status,
            res.message@ == message@,
    {
        ApiError { status, message }
    }

    /// A malformed request: status 400.
    pub fn bad_request(message: String) -> (res: ApiError)
        ensures
            res.status == 400,
            res.message@ == message@,
    {
        ApiError::new(400, message)
    }

    /// A failure of the server itself: status 500.
    pub fn internal(message: String) -> (res: ApiError)
        ensures
            res.status == 500,
            res.message@ == message@,
    {
        ApiError::new(500, message)
    }

    /// An image that could not be processed: status 422.
    pub fn matting(message: String) -> (res: ApiError)
        ensures
            res.status == 422,
            res.message@ == message@,
    {
        ApiError::new(422, message)
    }
}

/// What the endpoint does with a multipart field, by its name.
#[derive(Clone, Copy, Debug, PartialEq, Eq, Structural)]
pub enum FieldRole {
    Crop,
    Background,
    File,
    Ignored,
}

/// The role of a field: `crop`, `background` and `file` are read, any other
/// name (or none) is skipped.
pub open spec fn role_of(name: Option<Seq<char>>) -> FieldRole {
    let n = match name {
        Some(n) => n,
        None => ""@,
    };
    if n == "crop"@ {
        FieldRole::Crop
    } else if n == "background"@ {
        FieldRole::Background
    } else if n == "file"@ {
        FieldRole::File
    } else {
        FieldRole::Ignored
    }
}

/// The role of a multipart field (see [`role_of`]).
pub fn field_role(name: Option<&str>) -> (res: FieldRole)
    ensures
        res == role_of(str_opt_view(name)),
{
    let n = match name {
        Some(n) => String::from_str(n),
        None => String::from_str(""),
    };
    if is_literal(&n, "crop") {
        FieldRole::Crop
    } else if is_literal(&n, "background") {
        FieldRole::Background
    } else if is_literal(&n, "file") {
        FieldRole::File
    } else {
        FieldRole::Ignored
    }
}

/// Whether `c` has the Unicode `White_Space` property, as `char::is_whitespace`
/// tests it.
pub open spec fn is_whitespace(c: char) -> bool {
    ('\u{9}' <= c && c <= '\u{d}') || c == ' ' || c == '\u{85}' || c == '\u{a0}' || c == '\u{1680}'
        || ('\u{2000}' <= c && c <= '\u{200a}') || c == '\u{2028}' || c == '\u{2029}' || c
        == '\u{202f}' || c == '\u{205f}' || c == '\u{3000}'
}

/// `s` without its leading white space.
pub open spec fn trim_start(s: Seq<char>) -> Seq<char>
    decreases s.len(),
{
    if s.len() > 0 && is_whitespace(s[0]) {
        trim_start(s.drop_first())
    } else {
        s
    }
}

/// `s` without its trailing white space.
pub open spec fn trim_end(s: Seq<char>) -> Seq<char>
    decreases s.len(),
{
    if s.len() > 0 && is_whitespace(s.last()) {
        trim_end(s.drop_last())
    } else {
        s
    }
}

/// `s` without leading and trailing white space, as `str::trim` cuts it.
pub open spec fn trimmed(s: Seq<char>) -> Seq<char> {
    trim_end(trim_start(s))
}

proof fn lemma_trim_start_skip(s: Seq<char>, a: int)
    requires
        0 <= a <= s.len(),
        forall|j: int| 0 <= j < a ==> is_whitespace(#[trigger] s[j]),
    ensures
        trim_start(s) == trim_start(s.skip(a)),
    decreases a,
{
    if a > 0 {
        assert(s.skip(1) =~= s.drop_first());
        lemma_trim_start_skip(s.drop_first(), a - 1);
        assert(s.drop_first().skip(a - 1) =~= s.skip(a));
    } else {
        assert(s.skip(0) =~= s);
    }
}

proof fn lemma_trim_end_take(s: Seq<char>, b: int)
    requires
        0 <= b <= s.len(),
        forall|j: int| b <= j < s.len() ==> is_whitespace(#[trigger] s[j]),
    ensures
        trim_end(s) == trim_end(s.take(b)),
    decreases s.len() - b,
{
    if b < s.len() {
        lemma_trim_end_take(s.drop_last(), b);
        assert(s.drop_last().take(b) =~= s.take(b));
    } else {
        assert(s.take(b) =~= s);
    }
}

fn is_space(c: char) -> (res: bool)
    ensures
        res == is_whitespace(c),
{
    ('\u{9}' <= c && c <= '\u{d}') || c == ' ' || c == '\u{85}' || c == '\u{a0}' || c == '\u{1680}'
        || ('\u{2000}' <= c && c <= '\u{200a}') || c == '\u{2028}' || c == '\u{2029}' || c
        == '\u{202f}' || c == '\u{205f}' || c == '\u{3000}'
}

/// Cuts leading and trailing white space (see [`trimmed`]).
pub fn trim(s: &str) -> (res: String)
    ensures
        res@ == trimmed(s@),
{
    let n = s.unicode_len();
    let mut a: usize = 0;
    while a < n && is_space(s.get_char(a))
        invariant
            a <= n,
            n == s@.len(),
            forall|j: int| 0 <= j < a ==> is_whitespace(#[trigger] s@[j]),
        decreases n - a,
    {
        a = a + 1;
    }
    proof {
        lemma_trim_start_skip(s@, a as int);
    }
    let mut b: usize = n;
    let ghost rest = s@.skip(a as int);
    while b > a && is_space(s.get_char(b - 1))
        invariant
            a <= b <= n,
            n == s@.len(),
            rest == s@.skip(a as int),
            forall|j: int| b - a <= j < rest.len() ==> is_whitespace(#[trigger] rest[j]),
        decreases b,
    {
        assert(rest[b - 1 - a] == s@[b - 1]);
        b = b - 1;
    }
    proof {
        if a < n {
            assert(!is_whitespace(s@[a as int]));
            assert(trim_start(rest) == rest);
        } else {
            assert(rest.len() == 0);
        }
        lemma_trim_end_take(rest, (b - a) as int);
        if b > a {
            assert(!is_whitespace(rest.take((b - a) as int).last()));
        }
    }
    let part = s.substring_char(a, b);
    assert(part@ =~= rest.take((b - a) as int));
    part.to_owned()
}

} // verus!

verus! {

/// The lower-case form of `s`, as `str::to_lowercase` maps it by the Unicode
/// case tables.
pub uninterp spec fn unicode_lowercase(s: Seq<char>) -> Seq<char>;

/// Calls `str::to_lowercase`. Trusted: the result is [`unicode_lowercase`] of
/// the argument; the mapping is fixed by Unicode data and depends on nothing
/// else.
#[verifier::external_body]
fn to_lowercase(s: &str) -> (res: String)
    ensures
        res@ == unicode_lowercase(s@),
{
    s.to_lowercase()
}

/// Whether an already lower-cased, trimmed value says yes: `true`, `1` or `yes`.
pub open spec fn is_affirmative_text(lowered: Seq<char>) -> bool {
    lowered == "true"@ || lowered == "1"@ || lowered == "yes"@
}

/// Tests whether an already lower-cased, trimmed value says yes.
pub fn is_affirmative(lowered: &str) -> (res: bool)
    ensures
        res == is_affirmative_text(lowered@),
{
    let l = String::from_str(lowered);
    is_literal(&l, "true") || is_literal(&l, "1") || is_literal(&l, "yes")
}

/// Whether the text of a `crop` field asks for cropping: trimmed and
/// lower-cased, it is `true`, `1` or `yes`.
pub open spec fn crop_requested(text: Seq<char>) -> bool {
    is_affirmative_text(unicode_lowercase(trimmed(text)))
}

/// Reads the text of a `crop` field (see [`crop_requested`]).
pub fn parse_crop_field(text: &str) -> (res: bool)
    ensures
        res == crop_requested(text@),
{
    let t = trim(text);
    let l = to_lowercase(t.as_str());
    is_affirmative(l.as_str())
}

/// The uploaded image: the extension it is stored under and its bytes.
#[derive(Debug, PartialEq, Eq)]
pub struct UploadedFile {
    pub extension: String,
    pub bytes: Vec<u8>,
}

/// A complete request: the image and how to process it.
#[derive(Debug, PartialEq, Eq)]
pub struct MattingRequest {
    pub file: UploadedFile,
    pub crop_to_subject: bool,
    pub background: Background,
}

/// The fields of a multipart upload read so far. A later field of a name
/// replaces an earlier one.
#[derive(Debug, PartialEq, Eq)]
pub struct UploadForm {
    pub crop_to_subject: bool,
    pub background: Background,
    pub file: Option<UploadedFile>,
}

/// The message for an upload without a `file` field.
pub open spec fn missing_file_message() -> Seq<char> {
    "Missing multipart field `file`"@
}

impl UploadForm {
    /// An upload with no field read: no cropping, a transparent background,
    /// no file.
    pub fn new() -> (res: UploadForm)
        ensures
            !res.crop_to_subject,
            res.background == Background::Transparent,
            res.file is None,
    {
        UploadForm { crop_to_subject: false, background: Background::Transparent, file: None }
    }

    /// Takes the text of a `crop` field.
    pub fn accept_crop(&mut self, text: &str)
        ensures
            final(self).crop_to_subject == crop_requested(text@),
            final(self).background == old(self).background,
            final(self).file == old(self).file,
    {
        self.crop_to_subject = parse_crop_field(text);
    }

    /// Takes the text of a `background` field; a color that names no
    /// background is refused with status 400 and leaves the form unchanged.
    pub fn accept_background(&mut self, text: &str) -> (res: Result<(), ApiError>)
        ensures
            match res {
                Ok(()) => background_from(text@) == Some(final(self).background),
                Err(e) => background_from(text@) is None && e.status == 400 && e.message@
                    == background_error(text@) && final(self).background == old(self).background,
            },
            final(self).crop_to_subject == old(self).crop_to_subject,
            final(self).file == old(self).file,
    {
        match parse_background(text) {
            Ok(b) => {
                self.background = b;
                Ok(())
            },
            Err(message) => Err(ApiError::bad_request(message)),
        }
    }

    /// Takes a `file` field: its client-side name and its bytes.
    pub fn accept_file(&mut self, file_name: Option<&str>, bytes: Vec<u8>)
        ensures
            final(self).file matches Some(f) && f.extension@ == upload_extension(
                str_opt_view(file_name),
            ) && f.bytes@ == bytes@,
            final(self).crop_to_subject == old(self).crop_to_subject,
            final(self).background == old(self).background,
    {
        let extension = String::from_str(input_extension(file_name));
        self.file = Some(UploadedFile { extension, bytes });
    }

    /// The request the upload makes, or status 400 when it has no file.
    pub fn into_request(self) -> (res: Result<MattingRequest, ApiError>)
        ensures
            match res {
                Ok(r) => self.file == Some(r.file) && r.crop_to_subject == self.crop_to_subject
                    && r.background == self.background,
                Err(e) => self.file is None && e.status == 400 && e.message@
                    == missing_file_message(),
            },
    {
        match self.file {
            Some(file) => Ok(
                MattingRequest {
                    file,
                    crop_to_subject: self.crop_to_subject,
                    background: self.background,
                },
            ),
            None => Err(ApiError::bad_request(String::from_str("Missing multipart field `file`"))),
        }
    }
}

} // verus!
