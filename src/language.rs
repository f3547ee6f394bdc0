//! The language of a file, from its name, and each language's comment syntax.
use vstd::prelude::*;
use vstd::string::StringSliceAdditionalSpecFns;

verus! {

/// The languages whose lines are counted.
#[derive(Debug, PartialEq, Eq, Structural, PartialOrd, Ord, Hash, Copy, Clone)]
pub enum Language {
    C,
    Cpp,
    Header,
    Python,
    Rust,
    Java,
    Javascript,
    Go,
    Html,
    Makefile,
    Unknown,
    Assembly,
    Text,
    Markdown,
}

/// The name under which a language is shown.
pub open spec fn language_name(l: Language) -> Seq<char> {
    match l {
        Language::C => "C"@,
        Language::Header => "Header"@,
        Language::Cpp => "C++"@,
        Language::Python => "Python"@,
        Language::Rust => "Rust"@,
        Language::Java => "Java"@,
        Language::Javascript => "Javascript"@,
        Language::Go => "Go"@,
        Language::Html => "Html"@,
        Language::Makefile => "Makefile"@,
        Language::Unknown => "Unknown"@,
        Language::Assembly => "Assembly"@,
        Language::Text => "Plain text"@,
        Language::Markdown => "Markdown"@,
    }
}

impl Language {
    /// The name under which the language is shown.
    pub fn to_string(&self) -> (r: &'static str)
        ensures
            r@ == language_name(*self),
    {
        match *self {
            Language::C => "C",
            Language::Header => "Header",
            Language::Cpp => "C++",
            Language::Python => "Python",
            Language::Rust => "Rust",
            Language::Java => "Java",
            Language::Javascript => "Javascript",
            Language::Go => "Go",
            Language::Html => "Html",
            Language::Makefile => "Makefile",
            Language::Unknown => "Unknown",
            Language::Assembly => "Assembly",
            Language::Text => "Plain text",
            Language::Markdown => "Markdown",
        }
    }
}

/// The language that a lower-case extension (or a file name without one)
/// stands for.
pub open spec fn language_of_key(k: Seq<char>) -> Language {
    if k == "c"@ {
        Language::C
    } else if k == "cpp"@ || k == "cc"@ {
        Language::Cpp
    } else if k == "h"@ || k == "hh"@ || k == "hpp"@ {
        Language::Header
    } else if k == "py"@ {
        Language::Python
    } else if k == "rs"@ {
        Language::Rust
    } else if k == "java"@ {
        Language::Java
    } else if k == "js"@ {
        Language::Javascript
    } else if k == "go"@ {
        Language::Go
    } else if k == "html"@ {
        Language::Html
    } else if k == "makefile"@ {
        Language::Makefile
    } else if k == "s"@ || k == "asm"@ {
        Language::Assembly
    } else if k == "txt"@ {
        Language::Text
    } else if k == "md"@ {
        Language::Markdown
    } else {
        Language::Unknown
    }
}

/// `p` stands somewhere in `s`.
pub open spec fn has_chars(s: Seq<char>, p: Seq<char>) -> bool {
    exists|i: int| 0 <= i && i + p.len() <= s.len() && #[trigger] s.subrange(i, i + p.len()) == p
}

/// Whether two strings hold the same characters.
pub fn same_chars(a: &str, b: &str) -> (r: bool)
    ensures
        r == (a@ == b@),
{
    let n = a.unicode_len();
    if n != b.unicode_len() {
        return false;
    }
    let mut i: usize = 0;
    while i < n
        invariant
            i <= n,
            n == a@.len(),
            n == b@.len(),
            forall|m: int| 0 <= m < i ==> a@[m] == b@[m],
        decreases n - i,
    {
        if a.get_char(i) != b.get_char(i) {
            return false;
        }
        i = i + 1;
    }
    assert(a@ =~= b@);
    true
}

/// Whether `p` stands somewhere in `s`.
pub fn contains_chars(s: &str, p: &str) -> (r: bool)
    ensures
        r == has_chars(s@, p@),
{
    let n = s.unicode_len();
    let m = p.unicode_len();
    if m > n {
        return false;
    }
    let mut i: usize = 0;
    while i <= n - m
        invariant
            m <= n,
            n == s@.len(),
            m == p@.len(),
            forall|j: int| 0 <= j < i ==> #[trigger] s@.subrange(j, j + m) != p@,
        decreases n - m + 1 - i,
    {
        let mut k: usize = 0;
        let mut same = true;
        while k < m
            invariant
                k <= m,
                i + m <= n,
                n == s@.len(),
                m == p@.len(),
                same == forall|q: int| 0 <= q < k ==> s@[i + q] == p@[q],
            decreases m - k,
        {
            if s.get_char(i + k) != p.get_char(k) {
                same = false;
            }
            k = k + 1;
        }
        if same {
            assert(s@.subrange(i as int, i + m) =~= p@);
            return true;
        }
        assert(s@.subrange(i as int, i + m) != p@) by {
            let q = choose|q: int| 0 <= q < m && s@[i + q] != p@[q];
            assert(s@.subrange(i as int, i + m)[q] != p@[q]);
        }
        if i == n - m {
            return false;
        }
        i = i + 1;
    }
    false
}

/// The language that a lower-case extension (or a file name without one)
/// stands for.
pub fn language_for_key(key: &str) -> (r: Language)
    ensures
        r == language_of_key(key@),
{
    if same_chars(key, "c") {
        Language::C
    } else if same_chars(key, "cpp") || same_chars(key, "cc") {
        Language::Cpp
    } else if same_chars(key, "h") || same_chars(key, "hh") || same_chars(key, "hpp") {
        Language::Header
    } else if same_chars(key, "py") {
        Language::Python
    } else if same_chars(key, "rs") {
        Language::Rust
    } else if same_chars(key, "java") {
        Language::Java
    } else if same_chars(key, "js") {
        Language::Javascript
    } else if same_chars(key, "go") {
        Language::Go
    } else if same_chars(key, "html") {
        Language::Html
    } else if same_chars(key, "makefile") {
        Language::Makefile
    } else if same_chars(key, "s") || same_chars(key, "asm") {
        Language::Assembly
    } else if same_chars(key, "txt") {
        Language::Text
    } else if same_chars(key, "md") {
        Language::Markdown
    } else {
        Language::Unknown
    }
}

/// The last component of a path, as `std::path::Path::file_name` gives it.
pub uninterp spec fn path_file_name(p: Seq<char>) -> Option<Seq<char>>;

/// The extension of a path, as `std::path::Path::extension` gives it.
pub uninterp spec fn path_extension(p: Seq<char>) -> Option<Seq<char>>;

/// The lower-case form of a string, as `str::to_lowercase` gives it.
pub uninterp spec fn lower_of(s: Seq<char>) -> Seq<char>;

/// Relies on std::path::Path::file_name: the final component of the path, or
/// `None` when the path ends in `..` or is a root or empty.
#[verifier::external_body]
fn file_name(path: &str) -> (r: Option<String>)
    ensures
        match r {
            Some(n) => path_file_name(path@) == Some(n@),
            None => path_file_name(path@) == Option::<Seq<char>>::None,
        },
{
    match std::path::Path::new(path).file_name() {
        Some(n) => Some(n.to_string_lossy().into_owned()),
        None => None,
    }
}

/// Relies on std::path::Path::extension: the text after the last `.` of the
/// file name, or `None` when there is no such dot or it starts the name.
#[verifier::external_body]
fn extension(path: &str) -> (r: Option<String>)
    ensures
        match r {
            Some(e) => path_extension(path@) == Some(e@),
            None => path_extension(path@) == Option::<Seq<char>>::None,
        },
{
    match std::path::Path::new(path).extension() {
        Some(e) => Some(e.to_string_lossy().into_owned()),
        None => None,
    }
}

/// Relies on str::to_lowercase: the result depends on the characters alone.
#[verifier::external_body]
fn lowercase(s: &str) -> (r: String)
    ensures
        r@ == lower_of(s@),
{
    s.to_lowercase()
}

/// The language of a file from its lower-case file name and lower-case
/// extension: a name holding "makefile" is a Makefile whatever its
/// extension; otherwise the extension decides, or the name when there is no
/// extension.
pub open spec fn language_of_names(lower_name: Seq<char>, lower_ext: Option<Seq<char>>) -> Language {
    if has_chars(lower_name, "makefile"@) {
        Language::Makefile
    } else {
        match lower_ext {
            Some(e) => language_of_key(e),
            None => language_of_key(lower_name),
        }
    }
}

/// The language of a path, or `None` when the path has no file name.
pub open spec fn language_of_path(p: Seq<char>) -> Option<Language> {
    match path_file_name(p) {
        None => None,
        Some(n) => Some(
            language_of_names(
                lower_of(n),
                match path_extension(p) {
                    Some(e) => Some(lower_of(e)),
                    None => None,
                },
            ),
        ),
    }
}

/// The language of a file from its lower-case file name and lower-case
/// extension.
pub fn language_from_names(lower_name: &str, lower_ext: Option<&str>) -> (r: Language)
    ensures
        r == language_of_names(
            lower_name@,
            match lower_ext {
                Some(e) => Some(e@),
                None => None,
            },
        ),
{
    if contains_chars(lower_name, "makefile") {
        Language::Makefile
    } else {
        match lower_ext {
            Some(e) => language_for_key(e),
            None => language_for_key(lower_name),
        }
    }
}

/// The language of the file at `filepath`, judged from its name alone;
/// `None` when the path has no file name.
pub fn get_language(filepath: &str) -> (r: Option<Language>)
    ensures
        r == language_of_path(filepath@),
{
    let name = match file_name(filepath) {
        Some(n) => n,
        None => {
            return None;
        },
    };
    let filename_lower = lowercase(name.as_str());
    let ext_lower: Option<String> = match extension(filepath) {
        Some(e) => Some(lowercase(e.as_str())),
        None => None,
    };
    let ext_ref: Option<&str> = match &ext_lower {
        Some(e) => Some(e.as_str()),
        None => None,
    };
    Some(language_from_names(filename_lower.as_str(), ext_ref))
}

/// The comment syntax of a language: one line marker and one pair of block
/// delimiters, each optional, or several of each.
pub enum LineConfig<'a> {
    Normal { single: Option<&'a str>, multi: Option<(&'a str, &'a str)> },
    Everything { singles: Vec<&'a str>, multis: Vec<(&'a str, &'a str)> },
}

/// The line marker of a language, as bytes.
pub open spec fn profile_marker(l: Language) -> Option<Seq<u8>> {
    match l {
        Language::C | Language::Cpp | Language::Rust | Language::Java | Language::Go
        | Language::Javascript | Language::Header => Some("//".spec_bytes()),
        Language::Assembly | Language::Python | Language::Makefile => Some("#".spec_bytes()),
        Language::Html | Language::Text | Language::Markdown | Language::Unknown => None,
    }
}

/// The block delimiters of a language, as bytes.
pub open spec fn profile_delimiters(l: Language) -> Option<(Seq<u8>, Seq<u8>)> {
    match l {
        Language::C | Language::Cpp | Language::Rust | Language::Java | Language::Go
        | Language::Javascript | Language::Header | Language::Assembly => Some(
            ("/*".spec_bytes(), "*/".spec_bytes()),
        ),
        Language::Python => Some(("\'\'\'".spec_bytes(), "\'\'\'".spec_bytes())),
        Language::Html => Some(("<!--".spec_bytes(), "-->".spec_bytes())),
        Language::Makefile | Language::Text | Language::Markdown | Language::Unknown => None,
    }
}

/// A line marker as bytes.
pub open spec fn marker_bytes(single: Option<&str>) -> Option<Seq<u8>> {
    match single {
        Some(m) => Some(m.spec_bytes()),
        None => None,
    }
}

/// A pair of block delimiters as bytes.
pub open spec fn delimiter_bytes(multi: Option<(&str, &str)>) -> Option<(Seq<u8>, Seq<u8>)> {
    match multi {
        Some(d) => Some((d.0.spec_bytes(), d.1.spec_bytes())),
        None => None,
    }
}

/// The comment syntax of `language`.
pub fn get_language_config(language: &Language) -> (r: LineConfig<'static>)
    ensures
        match r {
            LineConfig::Normal { single, multi } => marker_bytes(single) == profile_marker(
                *language,
            ) && delimiter_bytes(multi) == profile_delimiters(*language),
            LineConfig::Everything { .. } => false,
        },
{
    let (single, multi): (Option<&'static str>, Option<(&'static str, &'static str)>) =
        match *language {
        Language::C | Language::Cpp | Language::Rust | Language::Java | Language::Go
        | Language::Javascript | Language::Header => (Some("//"), Some(("/*", "*/"))),
        Language::Assembly => (Some("#"), Some(("/*", "*/"))),
        Language::Python => (Some("#"), Some(("\'\'\'", "\'\'\'"))),
        Language::Text | Language::Markdown | Language::Unknown => (None, None),
        Language::Makefile => (Some("#"), None),
        Language::Html => (None, Some(("<!--", "-->"))),
    };
    LineConfig::Normal { single, multi }
}

} // verus!
