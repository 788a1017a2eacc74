//! A declarative runner for HTTP endpoint tests: a plain-text spec file
//! describes requests and the responses they should draw, and the library
//! turns that text into test cases, locates each case's expected-result
//! fixture, and holds an executed response against it by a strict
//! structural comparison of the JSON bodies and, where declared, of the
//! status. The network exchange itself stays outside the library; callers
//! hand in the response they received.

pub mod errors;
pub mod fixture;
pub mod json;
pub mod request;
pub mod text;
pub mod url;
pub mod validator;
