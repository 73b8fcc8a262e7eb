//! Names and numbers of the articles: where an article is kept, where it is fetched from,
//! and which number is drawn at random.
use vstd::prelude::*;
use crate::backend::random_between;
use crate::text::{three_digit_text, three_digits};

verus! {

/// The highest article number that is drawn at random.
pub const MAX_SCP: i32 = 9999;

/// The name of the file that keeps the text of the article `number`.
pub open spec fn file_name(number: int) -> Seq<char> {
    "SCP-"@ + three_digits(number) + ".txt"@
}

/// The address of the page of the article `number`.
pub open spec fn page_url(number: int) -> Seq<char> {
    "https://scp-wiki.wikidot.com/scp-"@ + three_digits(number)
}

/// The text shown when the page of the article `number` was answered with `status`.
pub open spec fn failure_text(number: int, status: Seq<char>) -> Seq<char> {
    "Failed to fetch SCP-"@ + three_digits(number) + ". Status: "@ + status
}

/// The name of the file that keeps the text of the article `number`.
pub fn entry_file_name(number: i32) -> (out: String)
    ensures
        out@ == file_name(number as int),
{
    let mut out = "SCP-".to_owned();
    out.append(three_digit_text(number).as_str());
    out.append(".txt");
    out
}

/// The address of the page of the article `number`.
pub fn entry_url(number: i32) -> (out: String)
    ensures
        out@ == page_url(number as int),
{
    let mut out = "https://scp-wiki.wikidot.com/scp-".to_owned();
    out.append(three_digit_text(number).as_str());
    out
}

/// The text shown in place of an article whose page was answered with `status`.
pub fn fetch_failure_message(number: i32, status: &str) -> (out: String)
    ensures
        out@ == failure_text(number as int, status@),
{
    let mut out = "Failed to fetch SCP-".to_owned();
    out.append(three_digit_text(number).as_str());
    out.append(". Status: ");
    out.append(status);
    out
}

/// Draws an article number at random, from 1 to `MAX_SCP`.
pub fn random_scp_number() -> (number: i32)
    ensures
        1 <= number <= MAX_SCP,
{
    random_between(1, MAX_SCP)
}

} // verus!
