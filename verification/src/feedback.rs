//! The bug-report e-mail that the feedback form opens.
use vstd::prelude::*;
use vstd::utf8::encode_utf8;
use crate::text::{str_concat, str_is_empty};

verus! {

/// An ASCII letter or digit.
pub open spec fn is_ascii_alphanumeric(b: u8) -> bool {
    (48 <= b <= 57) || (65 <= b <= 90) || (97 <= b <= 122)
}

/// An upper-case hexadecimal digit.
pub open spec fn hex_upper(d: int) -> char {
    if d < 10 {
        (d + 48) as char
    } else {
        (d + 55) as char
    }
}

/// Percent-encoding with every byte but ASCII letters and digits encoded as
/// `%XX` in upper-case hexadecimal.
pub open spec fn spec_percent_encode(bytes: Seq<u8>) -> Seq<char>
    decreases bytes.len(),
{
    if bytes.len() == 0 {
        Seq::empty()
    } else {
        let b = bytes.last();
        spec_percent_encode(bytes.drop_last()) + if is_ascii_alphanumeric(b) {
            seq![b as char]
        } else {
            seq!['%', hex_upper(b as int / 16), hex_upper(b as int % 16)]
        }
    }
}

/// `percent_encoding::utf8_percent_encode(s, NON_ALPHANUMERIC)`, as a string:
/// the UTF-8 bytes of `s`, each ASCII letter and digit as it is and every
/// other byte as `%XX`.
#[verifier::external_body]
fn percent_encode_non_alphanumeric(s: &str) -> (r: String)
    ensures
        r@ == spec_percent_encode(encode_utf8(s@)),
{
    percent_encoding::utf8_percent_encode(s, percent_encoding::NON_ALPHANUMERIC).to_string()
}

/// The body of a bug report: who sends it, the description, the logs when
/// there are any, and a closing request for more details.
pub open spec fn spec_feedback_body(name: Seq<char>, description: Seq<char>, logs: Seq<char>) -> Seq<
    char,
> {
    "来自: "@ + name + "\n\n"@ + "问题描述:\n"@ + description + "\n"@ + (if logs.len() > 0 {
        "\n--- 日志/错误信息 ---\n"@ + logs + "\n"@
    } else {
        Seq::empty()
    }) + "\n---\n请在此补充任何有助于定位问题的信息。\n"@
}

pub fn feedback_body(name: &str, description: &str, logs: &str) -> (r: String)
    ensures
        r@ == spec_feedback_body(name@, description@, logs@),
{
    let mut body = str_concat("来自: ", name);
    body = str_concat(body.as_str(), "\n\n");
    body = str_concat(body.as_str(), "问题描述:\n");
    body = str_concat(body.as_str(), description);
    body = str_concat(body.as_str(), "\n");
    let ghost head = body@;
    if !str_is_empty(logs) {
        body = str_concat(body.as_str(), "\n--- 日志/错误信息 ---\n");
        body = str_concat(body.as_str(), logs);
        body = str_concat(body.as_str(), "\n");
    }
    body = str_concat(body.as_str(), "\n---\n请在此补充任何有助于定位问题的信息。\n");
    assert(body@ =~= spec_feedback_body(name@, description@, logs@));
    body
}

/// The subject line of a bug report.
pub open spec fn feedback_subject() -> Seq<char> {
    "[bangumiao Bug反馈]"@
}

/// The `mailto:` link of a bug report, subject and body percent-encoded.
pub fn feedback_mailto(name: &str, description: &str, logs: &str) -> (r: String)
    ensures
        r@ == "mailto:eastz@pku.edu.cn?subject="@ + spec_percent_encode(
            encode_utf8(feedback_subject()),
        ) + "&body="@ + spec_percent_encode(
            encode_utf8(spec_feedback_body(name@, description@, logs@)),
        ),
{
    let body = feedback_body(name, description, logs);
    let subject = percent_encode_non_alphanumeric("[bangumiao Bug反馈]");
    let encoded = percent_encode_non_alphanumeric(body.as_str());
    let a = str_concat("mailto:eastz@pku.edu.cn?subject=", subject.as_str());
    let b = str_concat(a.as_str(), "&body=");
    str_concat(b.as_str(), encoded.as_str())
}

} // verus!
