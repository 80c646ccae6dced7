//! Error types shared across the crate.

use vstd::prelude::*;

use crate::text::{append_bracketed, append_decimal};

verus! {

/// Every failure mode that is not a programming bug.
#[derive(Debug)]
pub enum Error {
    /// A model or layer configuration is internally inconsistent.
    Config(String),
    /// A tensor operation received shapes that cannot be reconciled.
    Shape(String),
    /// A tensor holds an unexpected rank.
    Rank {
        /// Rank the operation requires.
        expected: usize,
        /// Rank that was supplied.
        got: usize,
        /// Offending shape.
        shape: Vec<usize>,
    },
    /// Autodiff was asked for a gradient that does not exist.
    Autodiff(String),
    /// Checkpoint or state-dict problem.
    StateDict(String),
    /// The requested feature is recognised but not implemented for this path.
    Unsupported(String),
}

/// What an [`Error`] says: the variant and its text, as a mathematical value.
pub enum Fault {
    Config(Seq<char>),
    Shape(Seq<char>),
    Rank { expected: usize, got: usize, shape: Seq<usize> },
    Autodiff(Seq<char>),
    StateDict(Seq<char>),
    Unsupported(Seq<char>),
}

impl View for Error {
    type V = Fault;

    open spec fn view(&self) -> Fault {
        match self {
            Error::Config(m) => Fault::Config(m@),
            Error::Shape(m) => Fault::Shape(m@),
            Error::Rank { expected, got, shape } => Fault::Rank {
                expected: *expected,
                got: *got,
                shape: shape@,
            },
            Error::Autodiff(m) => Fault::Autodiff(m@),
            Error::StateDict(m) => Fault::StateDict(m@),
            Error::Unsupported(m) => Fault::Unsupported(m@),
        }
    }
}

/// The sentence a fault is shown as.
pub open spec fn sentence(f: Fault) -> Seq<char> {
    match f {
        Fault::Config(m) => "invalid configuration: "@ + m,
        Fault::Shape(m) => "shape error: "@ + m,
        Fault::Rank { expected, got, shape } => "expected rank "@ + crate::text::decimal(
            expected as nat,
        ) + ", got "@ + crate::text::decimal(got as nat) + " (shape "@ + crate::text::bracketed(
            shape,
        ) + ")"@,
        Fault::Autodiff(m) => "autodiff error: "@ + m,
        Fault::StateDict(m) => "state dict error: "@ + m,
        Fault::Unsupported(m) => "unsupported: "@ + m,
    }
}

/// Whether an executable result says what a mathematical one does.
pub open spec fn agrees<T: View>(r: Result<T, Error>, s: Result<T::V, Fault>) -> bool {
    match (r, s) {
        (Ok(x), Ok(y)) => x@ == y,
        (Err(e), Err(f)) => e@ == f,
        _ => false,
    }
}

fn joined(head: &str, tail: &String) -> (r: String)
    ensures
        r@ == head@ + tail@,
{
    let mut text = String::new();
    text.append(head);
    text.append(tail.as_str());
    proof {
        assert(text@ =~= head@ + tail@);
    }
    text
}

impl Error {
    /// Convenience constructor for [`Error::Config`].
    pub fn config(msg: &str) -> (r: Self)
        ensures
            r@ == Fault::Config(msg@),
    {
        Error::Config(msg.to_owned())
    }

    /// Convenience constructor for [`Error::Shape`].
    pub fn shape(msg: &str) -> (r: Self)
        ensures
            r@ == Fault::Shape(msg@),
    {
        Error::Shape(msg.to_owned())
    }

    /// The sentence this error is shown as.
    pub fn message(&self) -> (r: String)
        ensures
            r@ == sentence(self@),
    {
        match self {
            Error::Config(m) => joined("invalid configuration: ", m),
            Error::Shape(m) => joined("shape error: ", m),
            Error::Rank { expected, got, shape } => {
                let mut text = String::new();
                text.append("expected rank ");
                append_decimal(&mut text, *expected as u64);
                text.append(", got ");
                append_decimal(&mut text, *got as u64);
                text.append(" (shape ");
                append_bracketed(&mut text, shape);
                text.append(")");
                proof {
                    assert(text@ =~= sentence(self@));
                }
                text
            },
            Error::Autodiff(m) => joined("autodiff error: ", m),
            Error::StateDict(m) => joined("state dict error: ", m),
            Error::Unsupported(m) => joined("unsupported: ", m),
        }
    }
}

} // verus!
