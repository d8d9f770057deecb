//! The policy for paths of ordinary collection records.

use crate::collection::Collection;
use crate::text::chars_of;
use vstd::prelude::*;

verus! {

/// Whether a character separates the components of a path.
pub open spec fn is_separator(c: char) -> bool {
    c == '/' || c == '\\'
}

/// Whether a component of a path starts with a dot.
pub open spec fn is_hidden(path: Seq<char>) -> bool {
    exists|i: int|
        0 <= i < path.len() && (#[trigger] path[i]) == '.' && (i == 0 || is_separator(path[i - 1]))
}

pub fn has_hidden_component(path: &str) -> (result: bool)
    ensures
        result == is_hidden(path@),
{
    let chars = chars_of(path);
    let mut i: usize = 0;
    while i < chars.len()
        invariant
            i <= chars@.len(),
            chars@ == path@,
            forall|k: int|
                0 <= k < i ==> !((#[trigger] path@[k]) == '.' && (k == 0 || is_separator(
                    path@[k - 1],
                ))),
        decreases chars@.len() - i,
    {
        if chars[i] == '.' {
            if i == 0 {
                return true;
            }
            if chars[i - 1] == '/' || chars[i - 1] == '\\' {
                return true;
            }
        }
        i = i + 1;
    }
    false
}

/// Why a path cannot be that of an ordinary record.
#[derive(Clone, Debug, PartialEq, Eq)]
pub enum RecordPathError {
    /// The path itself is not valid.
    InvalidPath(String),
    /// Hidden places never hold ordinary records.
    HiddenComponent,
    /// The path is kept for something else.
    Reserved,
    /// The file's name does not end as that of a record.
    UnsupportedExtension,
}

/// What is known of a path: its normal form or why it has none, whether the
/// collection excludes it, and whether it ends as a record's does.
#[derive(Debug)]
pub struct RecordPathFacts {
    pub normal: Result<String, String>,
    pub excluded: bool,
    pub record_extension: bool,
}

/// What a path error holds.
pub enum PathFault {
    InvalidPath(Seq<char>),
    HiddenComponent,
    Reserved,
    UnsupportedExtension,
}

impl View for RecordPathError {
    type V = PathFault;

    open spec fn view(&self) -> PathFault {
        match self {
            RecordPathError::InvalidPath(message) => PathFault::InvalidPath(message@),
            RecordPathError::HiddenComponent => PathFault::HiddenComponent,
            RecordPathError::Reserved => PathFault::Reserved,
            RecordPathError::UnsupportedExtension => PathFault::UnsupportedExtension,
        }
    }
}

impl PathFault {
    pub open spec fn text(self) -> Seq<char> {
        match self {
            PathFault::InvalidPath(message) => message,
            PathFault::HiddenComponent =>
            "record paths must not use hidden filesystem components"@,
            PathFault::Reserved =>
            "path is reserved or excluded from ordinary collection records"@,
            PathFault::UnsupportedExtension =>
            "path does not use a configured record extension"@,
        }
    }
}

impl RecordPathError {
    /// The error as text.
    pub fn to_text(&self) -> (result: String)
        ensures
            result@ == self@.text(),
    {
        match self {
            RecordPathError::InvalidPath(message) => message.clone(),
            RecordPathError::HiddenComponent =>
            "record paths must not use hidden filesystem components".to_owned(),
            RecordPathError::Reserved =>
            "path is reserved or excluded from ordinary collection records".to_owned(),
            RecordPathError::UnsupportedExtension =>
            "path does not use a configured record extension".to_owned(),
        }
    }
}

/// The path of an ordinary record, or the first reason against it.
pub open spec fn record_path_of(facts: RecordPathFacts) -> Result<Seq<char>, PathFault> {
    match facts.normal {
        Err(message) => Err(PathFault::InvalidPath(message@)),
        Ok(path) => if is_hidden(path@) {
            Err(PathFault::HiddenComponent)
        } else if facts.excluded {
            Err(PathFault::Reserved)
        } else if !facts.record_extension {
            Err(PathFault::UnsupportedExtension)
        } else {
            Ok(path@)
        },
    }
}

impl Collection {
    /// Checks the path of an ordinary record and gives its normal form.
    pub fn validate_record_path(&self, facts: &RecordPathFacts) -> (result: Result<
        String,
        RecordPathError,
    >)
        ensures
            match result {
                Ok(path) => record_path_of(*facts) == Ok::<_, PathFault>(path@),
                Err(error) => record_path_of(*facts) == Err::<Seq<char>, _>(error@),
            },
    {
        let path = match &facts.normal {
            Ok(path) => path,
            Err(message) => {
                return Err(RecordPathError::InvalidPath(message.clone()));
            },
        };
        if has_hidden_component(path.as_str()) {
            return Err(RecordPathError::HiddenComponent);
        }
        if facts.excluded {
            return Err(RecordPathError::Reserved);
        }
        if !facts.record_extension {
            return Err(RecordPathError::UnsupportedExtension);
        }
        Ok(path.clone())
    }
}

/// A path that is accepted has no hidden component.
pub proof fn lemma_record_paths_are_visible(facts: RecordPathFacts)
    requires
        record_path_of(facts) is Ok,
    ensures
        !is_hidden(record_path_of(facts)->Ok_0),
{
}

} // verus!
