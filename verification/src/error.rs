//! Error types for library backends.

use vstd::prelude::*;

use crate::paths::{file_name, file_name_of};
use crate::text::{chars_of, push_str, string_of};

verus! {

/// `std::io::Error`, carried opaquely by [`LibraryError::Io`].
#[verifier::external_type_specification]
#[verifier::external_body]
pub struct ExIoError(std::io::Error);

/// `std::io::Error`'s `Display` text (`to_string`). Nothing is promised of
/// it: for an OS error std takes the text from the C library, which follows
/// the process's locale, and a custom error prints what its source prints.
#[verifier::external_body]
pub fn io_error_text(e: &std::io::Error) -> (s: String) {
    e.to_string()
}

/// The label shown for an unnamed path.
pub open spec fn unknown_label() -> Seq<char> {
    seq!['(', 'u', 'n', 'k', 'n', 'o', 'w', 'n', ')']
}

/// The user-facing label of a path: its file name, or `(unknown)`.
pub open spec fn path_label_of(path: Seq<char>) -> Seq<char> {
    match file_name_of(path) {
        Some(name) => name,
        None => unknown_label(),
    }
}

/// Basename for user-facing path errors (avoids leaking full filesystem paths).
pub fn path_label(path: &str) -> (label: String)
    ensures
        label@ == path_label_of(path@),
{
    let cs = chars_of(path);
    match file_name(cs.as_slice()) {
        Some(name) => string_of(name.as_slice()),
        None => {
            let v = vec!['(', 'u', 'n', 'k', 'n', 'o', 'w', 'n', ')'];
            assert(v@ =~= unknown_label());
            string_of(v.as_slice())
        },
    }
}

/// Errors returned by library backends.
#[derive(Debug)]
pub enum LibraryError {
    /// Track or collection was not found.
    NotFound(String),
    /// Path does not exist or is not accessible.
    PathNotFound(String),
    /// Path is not a supported audio file.
    UnsupportedFile(String),
    /// Path is not a directory (expected for folder collections).
    NotADirectory(String),
    /// Operation requires a different collection type.
    WrongCollectionType {
        /// Expected type name (`"folder"` or `"playlist"`).
        expected: &'static str,
        /// Actual type name.
        got: &'static str,
    },
    /// Operation is not supported by this backend.
    Unsupported(&'static str),
    /// I/O failure.
    Io(std::io::Error),
    /// Backend-specific failure.
    Backend {
        /// Backend name (e.g. `"library"`, `"rekordbox"`).
        backend: &'static str,
        /// Human-readable message.
        message: String,
    },
}

/// Result alias for library operations.
pub type Result<T> = core::result::Result<T, LibraryError>;

/// `r` is a backend error from `backend` with text `message`.
pub open spec fn is_backend_error<T>(r: Result<T>, backend: Seq<char>, message: Seq<char>) -> bool {
    match r {
        Err(LibraryError::Backend { backend: b, message: m }) => b@ == backend && m@ == message,
        _ => false,
    }
}

/// The start of the text of an I/O error; the rest is the I/O error's own
/// text, which depends on the locale.
pub open spec fn io_error_prefix() -> Seq<char> {
    seq!['I', '/', 'O', ' ', 'e', 'r', 'r', 'o', 'r', ':', ' ']
}

/// `m` is the text `Display` shows for `e`: exactly [`error_message`], but
/// for an I/O error only its start is fixed.
pub open spec fn shows_message(e: LibraryError, m: Seq<char>) -> bool {
    if e is Io {
        m.len() >= io_error_prefix().len() && m.take(io_error_prefix().len() as int) == io_error_prefix()
    } else {
        m == error_message(e)
    }
}

/// The text `Display` shows for each error (for an I/O error, its start).
pub open spec fn error_message(e: LibraryError) -> Seq<char> {
    match e {
        LibraryError::NotFound(s) => seq!['n', 'o', 't', ' ', 'f', 'o', 'u', 'n', 'd', ':', ' ']
            + s@,
        LibraryError::PathNotFound(s) => seq![
            'p',
            'a',
            't',
            'h',
            ' ',
            'n',
            'o',
            't',
            ' ',
            'f',
            'o',
            'u',
            'n',
            'd',
            ':',
            ' ',
        ] + s@,
        LibraryError::UnsupportedFile(s) => unsupported_file_prefix() + s@,
        LibraryError::NotADirectory(s) => seq![
            'n',
            'o',
            't',
            ' ',
            'a',
            ' ',
            'd',
            'i',
            'r',
            'e',
            'c',
            't',
            'o',
            'r',
            'y',
            ':',
            ' ',
        ] + s@,
        LibraryError::WrongCollectionType { expected, got } => seq![
            'e',
            'x',
            'p',
            'e',
            'c',
            't',
            'e',
            'd',
            ' ',
        ] + expected@ + seq![' ', 'c', 'o', 'l', 'l', 'e', 'c', 't', 'i', 'o', 'n', ',', ' ', 'g', 'o', 't', ' ']
            + got@,
        LibraryError::Unsupported(s) => unsupported_op_prefix() + s@,
        LibraryError::Io(_) => io_error_prefix(),
        LibraryError::Backend { backend, message } => backend@ + seq![':', ' '] + message@,
    }
}

/// `unsupported audio file: `
pub open spec fn unsupported_file_prefix() -> Seq<char> {
    seq![
        'u',
        'n',
        's',
        'u',
        'p',
        'p',
        'o',
        'r',
        't',
        'e',
        'd',
        ' ',
        'a',
        'u',
        'd',
        'i',
        'o',
        ' ',
        'f',
        'i',
        'l',
        'e',
        ':',
        ' ',
    ]
}

/// `unsupported operation: `
pub open spec fn unsupported_op_prefix() -> Seq<char> {
    seq![
        'u',
        'n',
        's',
        'u',
        'p',
        'p',
        'o',
        'r',
        't',
        'e',
        'd',
        ' ',
        'o',
        'p',
        'e',
        'r',
        'a',
        't',
        'i',
        'o',
        'n',
        ':',
        ' ',
    ]
}

fn push_lit(out: &mut String, lit: Vec<char>)
    ensures
        final(out)@ == old(out)@ + lit@,
{
    crate::text::push_chars(out, lit.as_slice());
}

impl LibraryError {
    /// The error's text, as its `Display` shows it.
    pub fn message(&self) -> (s: String)
        ensures
            shows_message(*self, s@),
    {
        let mut out = String::new();
        match self {
            LibraryError::NotFound(s) => {
                let l = vec!['n', 'o', 't', ' ', 'f', 'o', 'u', 'n', 'd', ':', ' '];
                push_lit(&mut out, l);
                push_str(&mut out, s.as_str());
            },
            LibraryError::PathNotFound(s) => {
                let l = vec!['p', 'a', 't', 'h', ' ', 'n', 'o', 't', ' ', 'f', 'o', 'u', 'n', 'd', ':', ' '];
                push_lit(&mut out, l);
                push_str(&mut out, s.as_str());
            },
            LibraryError::UnsupportedFile(s) => {
                let l = vec![
                    'u', 'n', 's', 'u', 'p', 'p', 'o', 'r', 't', 'e', 'd', ' ', 'a', 'u', 'd', 'i', 'o',
                    ' ', 'f', 'i', 'l', 'e', ':', ' ',
                ];
                assert(l@ =~= unsupported_file_prefix());
                push_lit(&mut out, l);
                push_str(&mut out, s.as_str());
            },
            LibraryError::NotADirectory(s) => {
                let l = vec![
                    'n', 'o', 't', ' ', 'a', ' ', 'd', 'i', 'r', 'e', 'c', 't', 'o', 'r', 'y', ':', ' ',
                ];
                push_lit(&mut out, l);
                push_str(&mut out, s.as_str());
            },
            LibraryError::WrongCollectionType { expected, got } => {
                let l = vec!['e', 'x', 'p', 'e', 'c', 't', 'e', 'd', ' '];
                push_lit(&mut out, l);
                push_str(&mut out, expected);
                let m = vec![
                    ' ', 'c', 'o', 'l', 'l', 'e', 'c', 't', 'i', 'o', 'n', ',', ' ', 'g', 'o', 't', ' ',
                ];
                push_lit(&mut out, m);
                push_str(&mut out, got);
            },
            LibraryError::Unsupported(s) => {
                let l = vec![
                    'u', 'n', 's', 'u', 'p', 'p', 'o', 'r', 't', 'e', 'd', ' ', 'o', 'p', 'e', 'r', 'a',
                    't', 'i', 'o', 'n', ':', ' ',
                ];
                assert(l@ =~= unsupported_op_prefix());
                push_lit(&mut out, l);
                push_str(&mut out, s);
            },
            LibraryError::Io(e) => {
                let l = vec!['I', '/', 'O', ' ', 'e', 'r', 'r', 'o', 'r', ':', ' '];
                push_lit(&mut out, l);
                let ghost pre = out@;
                let t = io_error_text(e);
                push_str(&mut out, t.as_str());
                assert(out@.take(io_error_prefix().len() as int) =~= pre);
                return out;
            },
            LibraryError::Backend { backend, message } => {
                push_str(&mut out, backend);
                let l = vec![':', ' '];
                push_lit(&mut out, l);
                push_str(&mut out, message.as_str());
            },
        }
        assert(out@ =~= error_message(*self));
        out
    }
}

} // verus!
