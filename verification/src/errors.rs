//! The error type handed across the control surface.

use vstd::prelude::*;

use vstd::string::StringExecFns;

use crate::strutil::{i64_to_dec_string, spec_i64_dec_digits};

verus! {

/// An error carried as a human-readable message.
#[derive(Debug, Clone, PartialEq)]
pub struct CommandError {
    /// The human-readable message.
    pub message: String,
}

/// The message of the error that a control call on an unknown chapter id
/// returns.
pub open spec fn spec_not_found_message(chapter_id: int) -> Seq<char> {
    "未找到章节ID为`"@ + spec_i64_dec_digits(chapter_id) + "`的下载任务"@
}

impl CommandError {
    /// Wraps a message.
    pub fn new(message: String) -> (r: CommandError)
        ensures
            r.message@ == message@,
    {
        CommandError { message }
    }

    /// The error for a control call on an unknown chapter id.
    pub fn not_found(chapter_id: i64) -> (r: CommandError)
        ensures
            r.message@ == spec_not_found_message(chapter_id as int),
    {
        let mut s = String::new();
        s.append("未找到章节ID为`");
        let digits = i64_to_dec_string(chapter_id);
        s.append(digits.as_str());
        s.append("`的下载任务");
        CommandError { message: s }
    }

    /// The message text.
    pub fn to_message(&self) -> (r: &str)
        ensures
            r@ == self.message@,
    {
        self.message.as_str()
    }

}

} // verus!
