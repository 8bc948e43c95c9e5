//! The error type of the language pipeline.

use vstd::prelude::*;
use crate::text::{concat_num, text};
use crate::token::Span;

verus! {

/// Something that went wrong in one of the phases, and where.
#[derive(Debug, Clone)]
pub struct Error {
    pub kind: ErrorKind,
    pub msg: String,
    pub span: Span,
}

/// The phase an error belongs to.
#[derive(Debug, Clone, Copy, PartialEq, Eq, Structural)]
pub enum ErrorKind {
    Lex,
    Parse,
    Type,
    Runtime,
}

/// The model of an [`Error`].
pub struct ErrorView {
    pub kind: ErrorKind,
    pub msg: Seq<char>,
    pub span: Span,
}

impl View for Error {
    type V = ErrorView;

    open spec fn view(&self) -> ErrorView {
        ErrorView { kind: self.kind, msg: self.msg@, span: self.span }
    }
}

/// The name of a phase, as messages print it.
pub open spec fn kind_name(k: ErrorKind) -> Seq<char> {
    match k {
        ErrorKind::Lex => "Lex"@,
        ErrorKind::Parse => "Parse"@,
        ErrorKind::Type => "Type"@,
        ErrorKind::Runtime => "Runtime"@,
    }
}

/// The printed form of an error: `<kind> error at <start>..<end>: <message>`.
pub open spec fn render(e: ErrorView) -> Seq<char> {
    kind_name(e.kind) + " error at "@ + crate::text::decimal(e.span.start as nat) + ".."@
        + crate::text::decimal(e.span.end as nat) + ": "@ + e.msg
}

impl Error {
    pub fn new(kind: ErrorKind, msg: String, span: Span) -> (r: Error)
        ensures
            r@ == (ErrorView { kind, msg: msg@, span }),
    {
        Error { kind, msg, span }
    }

    /// A copy.
    pub fn copy(&self) -> (r: Error)
        ensures
            r@ == self@,
    {
        Error { kind: self.kind, msg: self.msg.clone(), span: self.span }
    }

    /// The printed form.
    pub fn to_string(&self) -> (r: String)
        ensures
            r@ == render(self@),
    {
        let name: &str = match self.kind {
            ErrorKind::Lex => "Lex",
            ErrorKind::Parse => "Parse",
            ErrorKind::Type => "Type",
            ErrorKind::Runtime => "Runtime",
        };
        let mut r = text(name);
        r.append(" error at ");
        r.append(concat_num("", self.span.start as u128, "..").as_str());
        r.append(concat_num("", self.span.end as u128, ": ").as_str());
        r.append(self.msg.as_str());
        proof {
            reveal_strlit("");
            assert(r@ =~= render(self@));
        }
        r
    }
}

} // verus!
