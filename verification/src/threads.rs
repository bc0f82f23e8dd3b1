use crate::text::{parse_number, trim};
use vstd::prelude::*;

verus! {

/// How many threads a setting asks for.
#[derive(Clone, Copy, PartialEq, Eq, Structural, Debug)]
pub enum ThreadSetting {
    /// There is no setting, or it is blank.
    Unset,
    /// The setting is not a positive number.
    Invalid,
    /// The setting is this number of threads.
    Threads(usize),
}

/// How many threads a setting asks for: a positive number, perhaps between white space.
pub open spec fn thread_setting(value: Option<Seq<char>>) -> ThreadSetting {
    match value {
        None => ThreadSetting::Unset,
        Some(text) => if crate::text::trimmed(text).len() == 0 {
            ThreadSetting::Unset
        } else {
            match crate::text::number(crate::text::trimmed(text)) {
                Some(n) => if n > 0 {
                    ThreadSetting::Threads(n)
                } else {
                    ThreadSetting::Invalid
                },
                None => ThreadSetting::Invalid,
            }
        },
    }
}

/// How many threads a setting asks for.
pub fn configured_threads(value: Option<&str>) -> (setting: ThreadSetting)
    ensures
        setting == thread_setting(
            match value {
                Some(text) => Some(text@),
                None => None,
            },
        ),
        setting != ThreadSetting::Threads(0),
{
    match value {
        None => ThreadSetting::Unset,
        Some(text) => {
            let trimmed: &str = trim(text);
            if trimmed.is_empty() {
                return ThreadSetting::Unset;
            }
            match parse_number(trimmed) {
                Some(n) => if n > 0 {
                    ThreadSetting::Threads(n)
                } else {
                    ThreadSetting::Invalid
                },
                None => ThreadSetting::Invalid,
            }
        },
    }
}

impl ThreadSetting {
    /// The number of threads to use, if the setting gives one.
    pub fn threads(self) -> (n: Option<usize>)
        ensures
            n == (match self {
                ThreadSetting::Threads(n) => Some(n),
                _ => None,
            }),
    {
        match self {
            ThreadSetting::Threads(n) => Some(n),
            _ => None,
        }
    }
}

} // verus!
