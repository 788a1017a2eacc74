use vstd::prelude::*;

verus! {

/// Everything that can end a run early: a malformed spec file, a fixture
/// that cannot be used, or an unusable URL.
#[derive(Debug, Clone, Copy, PartialEq, Eq, Structural)]
pub enum TestError {
    /// A block does not open with the directive marker.
    UnexpectedStart,
    /// The file ends where a request line was expected.
    MissingRequestLine,
    /// The request line holds fewer than two tokens.
    BadRequestLine,
    /// A header line has no colon.
    BadHeaderLine,
    /// A directive pair has no colon.
    BadDirectivePair,
    /// The `id` value is not an unsigned decimal number.
    BadId,
    /// A body or fixture is not valid JSON text.
    BadJson,
    /// Neither a fixture path nor a usable `id` is given.
    NoOutputResult,
    /// The URL does not parse, or names no host.
    BadUrl,
    /// The spec file's name does not end in `http`.
    BadFileSuffix,
    /// The block asks for a comparison kind that has none defined.
    UnsupportedResultKind,
}

/// The wording of each error.
pub open spec fn error_text(e: TestError) -> Seq<char> {
    match e {
        TestError::UnexpectedStart => "unexpected character expected '###'"@,
        TestError::MissingRequestLine => "expected a request line"@,
        TestError::BadRequestLine => "expected method and url on the request line"@,
        TestError::BadHeaderLine => "expected 'name: value' on a header line"@,
        TestError::BadDirectivePair => "expected 'key: value' in the directive"@,
        TestError::BadId => "id is not an unsigned number"@,
        TestError::BadJson => "invalid json"@,
        TestError::NoOutputResult => "no output result is defined"@,
        TestError::BadUrl => "url has no host"@,
        TestError::BadFileSuffix => "expected file ending to be http"@,
        TestError::UnsupportedResultKind => "unsupported expected-result kind"@,
    }
}

impl TestError {
    /// The error's wording, for reports.
    pub fn message(&self) -> (r: String)
        ensures
            r@ == error_text(*self),
    {
        match self {
            TestError::UnexpectedStart => String::from_str("unexpected character expected '###'"),
            TestError::MissingRequestLine => String::from_str("expected a request line"),
            TestError::BadRequestLine => String::from_str(
                "expected method and url on the request line",
            ),
            TestError::BadHeaderLine => String::from_str("expected 'name: value' on a header line"),
            TestError::BadDirectivePair => String::from_str(
                "expected 'key: value' in the directive",
            ),
            TestError::BadId => String::from_str("id is not an unsigned number"),
            TestError::BadJson => String::from_str("invalid json"),
            TestError::NoOutputResult => String::from_str("no output result is defined"),
            TestError::BadUrl => String::from_str("url has no host"),
            TestError::BadFileSuffix => String::from_str("expected file ending to be http"),
            TestError::UnsupportedResultKind => String::from_str(
                "unsupported expected-result kind",
            ),
        }
    }
}

} // verus!
