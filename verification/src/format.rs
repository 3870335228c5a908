//! Codeplug / config file formats and how a command picks one: an
//! explicit `-t/-y/-c/-b/-m` flag first, else the file's extension.
use vstd::prelude::*;

use crate::text::{str_chars, string_of};

verus! {

/// Codeplug / config file format.
#[derive(Debug, Clone, Copy, PartialEq, Eq, Structural)]
pub enum Format {
    /// narm-canonical TOML.
    Toml,
    /// dmrconf-compatible YAML.
    Yaml,
    /// CHIRP-generic CSV.
    Csv,
    /// Raw radio image.
    Bin,
    /// Vendor-native binary (e.g. `.kg` for KG-Q336).
    Manufacturer,
}

/// The name of a format, as the command line spells it.
pub open spec fn format_name(f: Format) -> Seq<char> {
    match f {
        Format::Toml => "toml"@,
        Format::Yaml => "yaml"@,
        Format::Csv => "csv"@,
        Format::Bin => "bin"@,
        Format::Manufacturer => "manufacturer"@,
    }
}

/// The format a name stands for, if any.
pub open spec fn format_of_name(s: Seq<char>) -> Option<Format> {
    if s == "toml"@ {
        Some(Format::Toml)
    } else if s == "yaml"@ {
        Some(Format::Yaml)
    } else if s == "csv"@ {
        Some(Format::Csv)
    } else if s == "bin"@ {
        Some(Format::Bin)
    } else if s == "manufacturer"@ {
        Some(Format::Manufacturer)
    } else {
        None
    }
}

/// Whether the characters of `v` are exactly those of `lit`.
pub fn chars_eq(v: &Vec<char>, lit: &str) -> (b: bool)
    ensures
        b == (v@ == lit@),
{
    let n = lit.unicode_len();
    if v.len() != n {
        return false;
    }
    let mut i: usize = 0;
    while i < n
        invariant
            n == lit@.len(),
            v@.len() == n,
            i <= n,
            forall|j: int| 0 <= j < i ==> v@[j] == lit@[j],
        decreases n - i,
    {
        if v[i] != lit.get_char(i) {
            return false;
        }
        i = i + 1;
    }
    assert(v@ =~= lit@);
    true
}

impl Format {
    /// The name of this format.
    pub fn as_str(self) -> (s: &'static str)
        ensures
            s@ == format_name(self),
    {
        match self {
            Format::Toml => "toml",
            Format::Yaml => "yaml",
            Format::Csv => "csv",
            Format::Bin => "bin",
            Format::Manufacturer => "manufacturer",
        }
    }

    /// The format named `s` (`toml`, `yaml`, `csv`, `bin`,
    /// `manufacturer`), if any.
    pub fn parse(s: &str) -> (r: Option<Format>)
        ensures
            r == format_of_name(s@),
    {
        let v = str_chars(s);
        if chars_eq(&v, "toml") {
            Some(Format::Toml)
        } else if chars_eq(&v, "yaml") {
            Some(Format::Yaml)
        } else if chars_eq(&v, "csv") {
            Some(Format::Csv)
        } else if chars_eq(&v, "bin") {
            Some(Format::Bin)
        } else if chars_eq(&v, "manufacturer") {
            Some(Format::Manufacturer)
        } else {
            None
        }
    }
}

/// The top-level format flags; the command line lets at most one be set.
#[derive(Debug, Clone, Copy, Default)]
pub struct FormatFlag {
    pub toml: bool,
    pub yaml: bool,
    pub csv: bool,
    pub bin: bool,
    pub manufacturer: bool,
}

/// The format the flags select: the first set one in the order
/// toml, yaml, csv, bin, manufacturer.
pub open spec fn flag_format(f: FormatFlag) -> Option<Format> {
    if f.toml {
        Some(Format::Toml)
    } else if f.yaml {
        Some(Format::Yaml)
    } else if f.csv {
        Some(Format::Csv)
    } else if f.bin {
        Some(Format::Bin)
    } else if f.manufacturer {
        Some(Format::Manufacturer)
    } else {
        None
    }
}

/// Each flag set alone selects the format of its own name (`-t` toml,
/// `-y` yaml, `-c` csv, `-b` bin, `-m` manufacturer), and with no flag
/// set there is no explicit format.
pub proof fn lemma_flag_selects_own_format(f: FormatFlag)
    ensures
        (f.toml && !f.yaml && !f.csv && !f.bin && !f.manufacturer) ==> flag_format(f) == Some(
            Format::Toml,
        ) && format_name(Format::Toml) == "toml"@,
        (!f.toml && f.yaml && !f.csv && !f.bin && !f.manufacturer) ==> flag_format(f) == Some(
            Format::Yaml,
        ) && format_name(Format::Yaml) == "yaml"@,
        (!f.toml && !f.yaml && f.csv && !f.bin && !f.manufacturer) ==> flag_format(f) == Some(
            Format::Csv,
        ) && format_name(Format::Csv) == "csv"@,
        (!f.toml && !f.yaml && !f.csv && f.bin && !f.manufacturer) ==> flag_format(f) == Some(
            Format::Bin,
        ) && format_name(Format::Bin) == "bin"@,
        (!f.toml && !f.yaml && !f.csv && !f.bin && f.manufacturer) ==> flag_format(f) == Some(
            Format::Manufacturer,
        ) && format_name(Format::Manufacturer) == "manufacturer"@,
        (!f.toml && !f.yaml && !f.csv && !f.bin && !f.manufacturer) ==> flag_format(f) is None,
{
}

/// Whatever the path, a single flag decides the resolved format: the
/// format of the flag's own name.
pub proof fn lemma_resolve_single_flag(f: FormatFlag, r: Result<Format, FormatError>)
    requires
        flag_format(f) is Some ==> r == Ok::<Format, FormatError>(flag_format(f)->0),
    ensures
        (!f.toml && !f.yaml && !f.csv && f.bin && !f.manufacturer) ==> r == Ok::<
            Format,
            FormatError,
        >(Format::Bin),
        (!f.toml && !f.yaml && !f.csv && !f.bin && f.manufacturer) ==> r == Ok::<
            Format,
            FormatError,
        >(Format::Manufacturer),
        (f.toml && !f.yaml && !f.csv && !f.bin && !f.manufacturer) ==> r == Ok::<
            Format,
            FormatError,
        >(Format::Toml),
        (!f.toml && f.yaml && !f.csv && !f.bin && !f.manufacturer) ==> r == Ok::<
            Format,
            FormatError,
        >(Format::Yaml),
        (!f.toml && !f.yaml && f.csv && !f.bin && !f.manufacturer) ==> r == Ok::<
            Format,
            FormatError,
        >(Format::Csv),
{
    lemma_flag_selects_own_format(f);
}

impl FormatFlag {
    /// The format an explicit flag selects, if any flag is set.
    pub fn explicit(self) -> (r: Option<Format>)
        ensures
            r == flag_format(self),
    {
        if self.toml {
            Some(Format::Toml)
        } else if self.yaml {
            Some(Format::Yaml)
        } else if self.csv {
            Some(Format::Csv)
        } else if self.bin {
            Some(Format::Bin)
        } else if self.manufacturer {
            Some(Format::Manufacturer)
        } else {
            None
        }
    }
}

/// The extension of a path, as `std::path::Path::extension` finds it.
pub uninterp spec fn path_extension_of(path: Seq<char>) -> Option<Seq<char>>;

/// `std::path::Path::extension`, as UTF-8 text; the result is named, it
/// depends on the path alone.
#[verifier::external_body]
fn path_extension(path: &str) -> (r: Option<String>)
    ensures
        match r {
            Some(e) => path_extension_of(path@) == Some(e@),
            None => path_extension_of(path@) is None,
        },
{
    std::path::Path::new(path).extension().and_then(|e| e.to_str()).map(|e| e.to_string())
}

/// ASCII lower-case of one character.
pub open spec fn ascii_lower(c: char) -> char {
    if 'A' <= c <= 'Z' {
        ((c as int) + 32) as char
    } else {
        c
    }
}

/// ASCII lower-case of a text (`str::to_ascii_lowercase`).
pub open spec fn ascii_lowercase(s: Seq<char>) -> Seq<char> {
    Seq::new(s.len(), |i: int| ascii_lower(s[i]))
}

/// ASCII lower-case of a character sequence.
pub fn to_ascii_lower(v: &Vec<char>) -> (w: Vec<char>)
    ensures
        w@ == ascii_lowercase(v@),
{
    let mut w: Vec<char> = Vec::new();
    let mut i: usize = 0;
    while i < v.len()
        invariant
            i <= v@.len(),
            w@ == ascii_lowercase(v@.take(i as int)),
        decreases v@.len() - i,
    {
        let c = v[i];
        let l = if 'A' <= c && c <= 'Z' {
            ((c as u32) + 32) as u8 as char
        } else {
            c
        };
        w.push(l);
        assert(ascii_lowercase(v@.take(i + 1)) =~= ascii_lowercase(v@.take(i as int)).push(
            ascii_lower(c),
        ));
        i = i + 1;
    }
    assert(v@.take(i as int) =~= v@);
    w
}

/// The format an extension (already lower-cased) stands for.
pub open spec fn format_of_extension(e: Seq<char>) -> Option<Format> {
    if e == "toml"@ {
        Some(Format::Toml)
    } else if e == "yaml"@ || e == "yml"@ {
        Some(Format::Yaml)
    } else if e == "csv"@ {
        Some(Format::Csv)
    } else if e == "bin"@ {
        Some(Format::Bin)
    } else if e == "kg"@ {
        Some(Format::Manufacturer)
    } else {
        None
    }
}

/// The format a path's extension names, compared case-insensitively.
pub open spec fn spec_from_path(path: Seq<char>) -> Option<Format> {
    match path_extension_of(path) {
        Some(e) => format_of_extension(ascii_lowercase(e)),
        None => None,
    }
}

/// The format an extension names, compared case-insensitively (`toml`,
/// `yaml`/`yml`, `csv`, `bin`, `kg`).
pub fn format_of_ext(ext: &str) -> (r: Option<Format>)
    ensures
        r == format_of_extension(ascii_lowercase(ext@)),
{
    let e = to_ascii_lower(&str_chars(ext));
    if chars_eq(&e, "toml") {
        Some(Format::Toml)
    } else if chars_eq(&e, "yaml") || chars_eq(&e, "yml") {
        Some(Format::Yaml)
    } else if chars_eq(&e, "csv") {
        Some(Format::Csv)
    } else if chars_eq(&e, "bin") {
        Some(Format::Bin)
    } else if chars_eq(&e, "kg") {
        Some(Format::Manufacturer)
    } else {
        None
    }
}

/// Look up the format from a path's extension; `None` for unknown or
/// missing ones.
pub fn from_path(path: &str) -> (r: Option<Format>)
    ensures
        r == spec_from_path(path@),
{
    match path_extension(path) {
        Some(e) => format_of_ext(e.as_str()),
        None => None,
    }
}

/// Why no format could be determined.
#[derive(Debug, Clone)]
pub enum FormatError {
    /// The path's extension names no known format.
    CannotInfer(String),
    /// No flag was given and there is no path to look at.
    NoFormat,
}

/// Resolve the format: an explicit flag wins, else the path's extension.
/// Fails when the extension is unknown, or when there is neither a flag
/// nor a path.
pub fn resolve(flag: FormatFlag, path: Option<&str>) -> (r: Result<Format, FormatError>)
    ensures
        flag_format(flag) is Some ==> r == Ok::<Format, FormatError>(flag_format(flag)->0),
        flag_format(flag) is None ==> match path {
            Some(p) => match spec_from_path(p@) {
                Some(f) => r == Ok::<Format, FormatError>(f),
                None => (r matches Err(FormatError::CannotInfer(s)) && s@ == p@),
            },
            None => r matches Err(FormatError::NoFormat),
        },
{
    if let Some(f) = flag.explicit() {
        return Ok(f);
    }
    if let Some(p) = path {
        if let Some(f) = from_path(p) {
            return Ok(f);
        }
        return Err(FormatError::CannotInfer(string_of(&str_chars(p))));
    }
    Err(FormatError::NoFormat)
}

} // verus!
