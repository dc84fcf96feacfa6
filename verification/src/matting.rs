//! The matting request: its background, its output path, and what the native
//! bridge's status code means.

use vstd::prelude::*;

use crate::paths::{
    file_name_of, file_stem, join_paths, parent_of, path_file_name, path_join, path_parent,
    stem_of,
};

verus! {

/// What the removed background is replaced with.
#[derive(Clone, Copy, Debug, PartialEq, Eq, Structural)]
pub enum Background {
    Transparent,
    Solid { red: u8, green: u8, blue: u8 },
}

/// Why a matting request failed.
#[derive(Debug, PartialEq, Eq)]
pub enum MattingError {
    LoadFailed(String),
    VisionRequestFailed,
    NoForeground,
    MaskFailed,
    BlendFailed,
    WriteFailed,
    CropBoundsFailed,
    UnsupportedOs,
    Unknown(i32),
    InvalidPath,
    UnsupportedPlatform,
}

/// The default output path for `input`: `<stem>_nobg.png` beside the input,
/// or nothing when the input has no file name.
pub open spec fn nobg_output_path(input: Seq<char>) -> Option<Seq<char>> {
    match path_file_name(input) {
        None => None,
        Some(name) => {
            let parent = match path_parent(input) {
                Some(p) => p,
                None => "."@,
            };
            Some(path_join(parent, file_stem(name) + "_nobg.png"@))
        },
    }
}

/// Given `/some/dir/photo.jpg`, returns `/some/dir/photo_nobg.png`.
pub fn derive_output_path(input_path: &str) -> (res: Option<String>)
    ensures
        match res {
            Some(p) => nobg_output_path(input_path@) == Some(p@),
            None => nobg_output_path(input_path@) is None,
        },
{
    let name = match file_name_of(input_path) {
        Some(n) => n,
        None => return None,
    };
    let mut file = stem_of(name.as_str());
    file.append("_nobg.png");
    let parent = match parent_of(input_path) {
        Some(p) => p,
        None => String::from_str("."),
    };
    Some(join_paths(parent.as_str(), file.as_str()))
}

/// Whether `s` holds a NUL character, which no C string can carry.
pub open spec fn has_nul(s: Seq<char>) -> bool {
    exists|i: int| 0 <= i < s.len() && s[i] == '\0'
}

fn contains_nul(s: &str) -> (res: bool)
    ensures
        res == has_nul(s@),
{
    let n = s.unicode_len();
    let mut i: usize = 0;
    while i < n
        invariant
            i <= n,
            n == s@.len(),
            forall|j: int| 0 <= j < i ==> s@[j] != '\0',
        decreases n - i,
    {
        if s.get_char(i) == '\0' {
            return true;
        }
        i = i + 1;
    }
    false
}

/// The output path a request writes to: the one given, or the default one;
/// nothing when there is none or when either path cannot be handed to C.
pub open spec fn matting_target(input: Seq<char>, output: Option<Seq<char>>) -> Option<Seq<char>> {
    let target = match output {
        Some(o) => Some(o),
        None => nobg_output_path(input),
    };
    match target {
        Some(t) => if has_nul(input) || has_nul(t) {
            None
        } else {
            Some(t)
        },
        None => None,
    }
}

/// The characters of an optional string.
pub open spec fn str_opt_view(o: Option<&str>) -> Option<Seq<char>> {
    match o {
        Some(s) => Some(s@),
        None => None,
    }
}

/// Chooses the output path of a matting request and checks that both paths
/// can be passed to the native bridge.
pub fn resolve_output_path(input_path: &str, output_path: Option<&str>) -> (res: Result<
    String,
    MattingError,
>)
    ensures
        match res {
            Ok(t) => matting_target(input_path@, str_opt_view(output_path)) == Some(t@),
            Err(e) => e == MattingError::InvalidPath && matting_target(
                input_path@,
                str_opt_view(output_path),
            ) is None,
        },
{
    let target = match output_path {
        Some(o) => o.to_owned(),
        None => match derive_output_path(input_path) {
            Some(p) => p,
            None => return Err(MattingError::InvalidPath),
        },
    };
    if contains_nul(input_path) || contains_nul(target.as_str()) {
        return Err(MattingError::InvalidPath);
    }
    Ok(target)
}

/// What the native bridge's status `code` means: `0` is success, with the
/// output path as result; each known negative code is one failure.
pub fn matting_result(code: i32, input_path: &str, output_path: String) -> (res: Result<
    String,
    MattingError,
>)
    ensures
        code == 0 ==> (res matches Ok(p) && p@ == output_path@),
        code == -1 ==> (res matches Err(MattingError::LoadFailed(p)) && p@ == input_path@),
        code == -2 ==> res == Err::<String, MattingError>(MattingError::VisionRequestFailed),
        code == -3 ==> res == Err::<String, MattingError>(MattingError::NoForeground),
        code == -4 ==> res == Err::<String, MattingError>(MattingError::MaskFailed),
        code == -5 ==> res == Err::<String, MattingError>(MattingError::BlendFailed),
        code == -6 ==> res == Err::<String, MattingError>(MattingError::WriteFailed),
        code == -7 ==> res == Err::<String, MattingError>(MattingError::CropBoundsFailed),
        code == -99 ==> res == Err::<String, MattingError>(MattingError::UnsupportedOs),
        !(-7 <= code <= 0 || code == -99) ==> res == Err::<String, MattingError>(
            MattingError::Unknown(code),
        ),
{
    match code {
        0 => Ok(output_path),
        -1 => Err(MattingError::LoadFailed(input_path.to_owned())),
        -2 => Err(MattingError::VisionRequestFailed),
        -3 => Err(MattingError::NoForeground),
        -4 => Err(MattingError::MaskFailed),
        -5 => Err(MattingError::BlendFailed),
        -6 => Err(MattingError::WriteFailed),
        -7 => Err(MattingError::CropBoundsFailed),
        -99 => Err(MattingError::UnsupportedOs),
        other => Err(MattingError::Unknown(other)),
    }
}

} // verus!
