//! The error taxonomy: every failure crossing the crate's boundary is one
//! of these values.
use vstd::prelude::*;

verus! {

/// Why an operation failed.
///
/// Diagnostics coming from the grammar compiler or the grammar execution
/// engine are carried as rendered text.
#[derive(Debug, Clone)]
pub enum InstantJsonError {
    /// The schema text failed to compile as a grammar.
    GrammarParse { message: String },
    /// The input text or the span tree over it was unusable.
    JsonParse { message: String },
    /// The grammar compiler reported a batch of diagnostics.
    Multiple(Vec<String>),
    /// No schema is registered under the requested name.
    NotFound,
    /// A `number` span whose text fails the float grammar.
    FloatParse { literal: String },
    /// A string span held a malformed escape sequence. Reserved for
    /// grammars that delegate escape validation to the reducer; the
    /// reducer itself never produces it.
    EscapeParse,
}

/// The carried diagnostics from position `i` on, separated by `; `.
pub open spec fn joined_diags(msgs: Seq<Seq<char>>, i: int) -> Seq<char>
    decreases msgs.len() - i,
{
    if i < 0 || i >= msgs.len() {
        Seq::empty()
    } else {
        msgs[i] + (if i + 1 < msgs.len() {
            "; "@ + joined_diags(msgs, i + 1)
        } else {
            Seq::empty()
        })
    }
}

/// The rendered description of each error, mirrored by `message`.
pub open spec fn message_spec(e: InstantJsonError) -> Seq<char> {
    match e {
        InstantJsonError::GrammarParse { message } => "grammar parsing error: "@ + message@,
        InstantJsonError::JsonParse { message } => "json parsing error: "@ + message@,
        InstantJsonError::Multiple(v) => "multiple errors: "@ + joined_diags(v.deep_view(), 0),
        InstantJsonError::NotFound => "not found error"@,
        InstantJsonError::FloatParse { literal } => "float parsing error: "@ + literal@,
        InstantJsonError::EscapeParse => "Broken UTF-8 escape sequence"@,
    }
}

impl InstantJsonError {
    /// A short description of the error, for display by a host.
    pub fn message(&self) -> (r: String)
        ensures
            r@ == message_spec(*self),
    {
        match self {
            InstantJsonError::GrammarParse { message } => {
                let mut s = String::from_str("grammar parsing error: ");
                s.append(message.as_str());
                s
            },
            InstantJsonError::JsonParse { message } => {
                let mut s = String::from_str("json parsing error: ");
                s.append(message.as_str());
                s
            },
            InstantJsonError::Multiple(v) => {
                let ghost dv = v.deep_view();
                let mut s = String::from_str("multiple errors: ");
                let n: usize = v.len();
                let mut i: usize = 0;
                while i < n
                    invariant
                        i <= n,
                        n == v@.len(),
                        dv == v.deep_view(),
                        dv.len() == n,
                        forall|j: int| 0 <= j < n ==> dv[j] == v@[j]@,
                        s@ + (if i == 0 {
                            joined_diags(dv, 0)
                        } else if i < n {
                            "; "@ + joined_diags(dv, i as int)
                        } else {
                            Seq::<char>::empty()
                        }) == "multiple errors: "@ + joined_diags(dv, 0),
                    decreases n - i,
                {
                    if i > 0 {
                        s.append("; ");
                    }
                    s.append(v[i].as_str());
                    i = i + 1;
                }
                s
            },
            InstantJsonError::NotFound => String::from_str("not found error"),
            InstantJsonError::FloatParse { literal } => {
                let mut s = String::from_str("float parsing error: ");
                s.append(literal.as_str());
                s
            },
            InstantJsonError::EscapeParse => String::from_str("Broken UTF-8 escape sequence"),
        }
    }
}

} // verus!
