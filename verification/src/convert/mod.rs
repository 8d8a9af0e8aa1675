//! Conversion between scene formats: which formats a file extension names,
//! and the options of each output format.
pub mod vox;

use vstd::prelude::*;

verus! {

/// Scene formats that can be read.
#[derive(Debug, Clone, Copy, PartialEq, Eq, Structural)]
pub enum InputType {
    /// glTF, as `.gltf` or binary `.glb`.
    GlbGltf,
}

/// Formats that can be written.
#[derive(Debug, Clone, Copy, PartialEq, Eq, Structural)]
pub enum OutputType {
    /// MagicaVoxel `.vox`.
    MagicaVoxel,
    /// This crate's own `.lattice` format.
    Lattice,
}

/// Name for what `Path::extension` gives for the path written as `path`:
/// the text after the last dot of the final component, if it has one.
pub uninterp spec fn path_extension(path: Seq<char>) -> Option<Seq<char>>;

/// Calls `std::path::Path::extension` on `file` and converts the result to
/// text. The extension of a UTF-8 path is UTF-8, so the conversion keeps
/// every character; the contract names the result and says nothing more.
#[verifier::external_body]
fn file_extension(file: &str) -> (r: Option<String>)
    ensures
        r is Some <==> path_extension(file@) is Some,
        r matches Some(e) ==> e@ == path_extension(file@).unwrap(),
{
    std::path::Path::new(file).extension().map(|e| e.to_string_lossy().into_owned())
}

/// Why a file name names no known format.
#[derive(Debug, Clone, Copy, PartialEq, Eq, Structural)]
pub enum FormatError {
    /// The file name has no extension.
    NoExtension,
    /// The extension names no format of this kind.
    UnknownExtension,
}

fn same_text(a: &str, b: &str) -> (r: bool)
    ensures
        r == (a@ == b@),
{
    let x = a.to_owned();
    let y = b.to_owned();
    x == y
}

/// The input format an extension names.
pub open spec fn input_type_of(ext: Seq<char>) -> Option<InputType> {
    if ext == "gltf"@ || ext == "glb"@ {
        Some(InputType::GlbGltf)
    } else {
        None
    }
}

/// The output format an extension names.
pub open spec fn output_type_of(ext: Seq<char>) -> Option<OutputType> {
    if ext == "vox"@ {
        Some(OutputType::MagicaVoxel)
    } else if ext == "lattice"@ {
        Some(OutputType::Lattice)
    } else {
        None
    }
}

/// The format of a file from its extension: an error when it has none or
/// when it names no format.
pub open spec fn format_of_file<T>(file: Seq<char>, of_ext: spec_fn(Seq<char>) -> Option<T>) -> Result<
    T,
    FormatError,
> {
    match path_extension(file) {
        None => Err(FormatError::NoExtension),
        Some(e) => match of_ext(e) {
            Some(t) => Ok(t),
            None => Err(FormatError::UnknownExtension),
        },
    }
}

impl InputType {
    /// The input format a file extension names; only `gltf` and `glb` name
    /// one.
    pub fn from_extension(ext: &str) -> (r: Option<InputType>)
        ensures
            r == input_type_of(ext@),
    {
        if same_text(ext, "gltf") || same_text(ext, "glb") {
            Some(InputType::GlbGltf)
        } else {
            None
        }
    }

    /// The input format of a file, by its extension.
    pub fn from_file(file: &str) -> (r: Result<InputType, FormatError>)
        ensures
            r == format_of_file(file@, |e: Seq<char>| input_type_of(e)),
    {
        match file_extension(file) {
            None => Err(FormatError::NoExtension),
            Some(e) => match InputType::from_extension(e.as_str()) {
                Some(t) => Ok(t),
                None => Err(FormatError::UnknownExtension),
            },
        }
    }
}

impl OutputType {
    /// The output format a file extension names: `vox` or `lattice`.
    pub fn from_extension(ext: &str) -> (r: Option<OutputType>)
        ensures
            r == output_type_of(ext@),
    {
        if same_text(ext, "vox") {
            Some(OutputType::MagicaVoxel)
        } else if same_text(ext, "lattice") {
            Some(OutputType::Lattice)
        } else {
            None
        }
    }

    /// The output format of a file, by its extension.
    pub fn from_file(file: &str) -> (r: Result<OutputType, FormatError>)
        ensures
            r == format_of_file(file@, |e: Seq<char>| output_type_of(e)),
    {
        match file_extension(file) {
            None => Err(FormatError::NoExtension),
            Some(e) => match OutputType::from_extension(e.as_str()) {
                Some(t) => Ok(t),
                None => Err(FormatError::UnknownExtension),
            },
        }
    }
}

} // verus!
