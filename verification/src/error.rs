//! Error type for basis set operations.
use vstd::prelude::*;

verus! {

/// Error type for basis set operations.
#[derive(Debug)]
pub enum BseError {
    /// Basis set or element data not found.
    DataNotFound(String),
    /// Invalid data format or content.
    DataError(String),
    /// Invalid key in lookup operation.
    KeyError(String),
    /// Invalid value provided by user.
    ValueError(String),
    /// Feature not yet implemented.
    NotImplementedError(String),
    /// I/O error reading files.
    IOError(String),
    /// JSON serialization/deserialization error.
    SerdeJsonError(String),
    /// Other errors.
    Miscellaneous(String),
    /// A required builder field was not set.
    UninitializedFieldError(String),
}

/// A `ValueError` whose message is `msg` followed by `detail`.
pub fn value_error(msg: &str, detail: &str) -> (e: BseError)
    ensures
        e matches BseError::ValueError(m) && m@ == msg@ + detail@,
{
    let mut m = msg.to_owned();
    crate::text::push_str(&mut m, detail);
    BseError::ValueError(m)
}

/// A `DataNotFound` error whose message is `msg` followed by `detail`.
pub fn not_found_error(msg: &str, detail: &str) -> (e: BseError)
    ensures
        e matches BseError::DataNotFound(m) && m@ == msg@ + detail@,
{
    let mut m = msg.to_owned();
    crate::text::push_str(&mut m, detail);
    BseError::DataNotFound(m)
}

impl BseError {
    /// The variant's name and the error's message.
    pub open spec fn parts(&self) -> (Seq<char>, Seq<char>) {
        match self {
            BseError::DataNotFound(m) => ("DataNotFound"@, m@),
            BseError::DataError(m) => ("DataError"@, m@),
            BseError::KeyError(m) => ("KeyError"@, m@),
            BseError::ValueError(m) => ("ValueError"@, m@),
            BseError::NotImplementedError(m) => ("NotImplementedError"@, m@),
            BseError::IOError(m) => ("IOError"@, m@),
            BseError::SerdeJsonError(m) => ("SerdeJsonError"@, m@),
            BseError::Miscellaneous(m) => ("Miscellaneous"@, m@),
            BseError::UninitializedFieldError(m) => ("UninitializedFieldError"@, m@),
        }
    }

    /// Text of the error: the variant's name, then the message in brackets.
    pub open spec fn message_text(&self) -> Seq<char> {
        self.parts().0 + "("@ + self.parts().1 + ")"@
    }

    /// Text of the error, `Variant(message)`, as its debug form prints it.
    pub fn message(&self) -> (r: String)
        ensures
            r@ == self.message_text(),
    {
        let (name, msg) = match self {
            BseError::DataNotFound(m) => ("DataNotFound(", m),
            BseError::DataError(m) => ("DataError(", m),
            BseError::KeyError(m) => ("KeyError(", m),
            BseError::ValueError(m) => ("ValueError(", m),
            BseError::NotImplementedError(m) => ("NotImplementedError(", m),
            BseError::IOError(m) => ("IOError(", m),
            BseError::SerdeJsonError(m) => ("SerdeJsonError(", m),
            BseError::Miscellaneous(m) => ("Miscellaneous(", m),
            BseError::UninitializedFieldError(m) => ("UninitializedFieldError(", m),
        };
        let mut r = name.to_owned();
        crate::text::push_str(&mut r, msg.as_str());
        crate::text::push_str(&mut r, ")");
        proof {
            reveal_strlit("DataNotFound(");
            reveal_strlit("DataError(");
            reveal_strlit("KeyError(");
            reveal_strlit("ValueError(");
            reveal_strlit("NotImplementedError(");
            reveal_strlit("IOError(");
            reveal_strlit("SerdeJsonError(");
            reveal_strlit("Miscellaneous(");
            reveal_strlit("UninitializedFieldError(");
            reveal_strlit("DataNotFound");
            reveal_strlit("DataError");
            reveal_strlit("KeyError");
            reveal_strlit("ValueError");
            reveal_strlit("NotImplementedError");
            reveal_strlit("IOError");
            reveal_strlit("SerdeJsonError");
            reveal_strlit("Miscellaneous");
            reveal_strlit("UninitializedFieldError");
            reveal_strlit("(");
            assert(name@ + msg@ =~= self.parts().0 + "("@ + self.parts().1);
            assert(r@ =~= self.message_text());
        }
        r
    }
}

} // verus!
