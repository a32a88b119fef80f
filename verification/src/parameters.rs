//! The options that a sink or a source accepts: their names, their types,
//! and the values they are given before the pipeline starts.

use vstd::prelude::*;
use crate::entries::{find_entry, has_key, insert_entry, key_index, named, with_entry};
use crate::text::str_eq;

verus! {

/// The type of an option, with its value once it has one. A number with a
/// fraction is held as its bit pattern.
#[derive(Debug)]
pub enum ParameterType {
    String(Option<String>),
    Integer(Option<i64>),
    Double(Option<u64>),
    Boolean(Option<bool>),
    FileSystemPath(FileSystemPathParameter),
    Enum { choices: Vec<String>, value: Option<String> },
}

/// An option that names a file or a directory.
#[derive(Debug)]
pub struct FileSystemPathParameter {
    pub value: Option<String>,
    pub must_exist: bool,
}

/// One option.
#[derive(Debug)]
pub struct ParameterEntry {
    pub description: String,
    pub required: bool,
    pub parameter: ParameterType,
}

/// Why a value was not taken, or why the options are not valid.
#[derive(Debug)]
pub enum ParameterError {
    /// No option has this name
    Unknown(String),
    /// The text is no value of the type of the option of this name
    InvalidValue(String),
    /// The option of this name takes a number with a fraction, which is
    /// not read from text here
    DoubleAsText(String),
    /// The option of this name is required and has no value
    Missing(String),
}

/// The options of a sink or a source, by name, in the order of their
/// definition.
#[derive(Debug)]
pub struct Parameters {
    pub entries: Vec<(String, ParameterEntry)>,
}

/// The integer that a text stands for in decimal notation, as
/// `str::parse` reads it; `None` where it reads none.
pub uninterp spec fn parsed_integer(text: Seq<char>) -> Option<i64>;

/// `str::parse` to a 64-bit integer: the integer that the text stands for,
/// if it stands for one.
#[verifier::external_body]
pub(crate) fn parse_integer(text: &str) -> (r: Option<i64>)
    ensures
        r == parsed_integer(text@),
{
    text.parse::<i64>().ok()
}

impl ParameterType {
    /// Whether the option has a value.
    pub open spec fn spec_has_value(&self) -> bool {
        match self {
            ParameterType::String(v) => v is Some,
            ParameterType::Integer(v) => v is Some,
            ParameterType::Double(v) => v is Some,
            ParameterType::Boolean(v) => v is Some,
            ParameterType::FileSystemPath(p) => p.value is Some,
            ParameterType::Enum { value, .. } => value is Some,
        }
    }

    /// Whether the option has a value.
    pub fn has_value(&self) -> (b: bool)
        ensures
            b == self.spec_has_value(),
    {
        match self {
            ParameterType::String(v) => v.is_some(),
            ParameterType::Integer(v) => v.is_some(),
            ParameterType::Double(v) => v.is_some(),
            ParameterType::Boolean(v) => v.is_some(),
            ParameterType::FileSystemPath(p) => p.value.is_some(),
            ParameterType::Enum { value, .. } => value.is_some(),
        }
    }
}

/// Whether `text` is one of `choices`.
pub open spec fn is_choice(choices: Seq<String>, text: Seq<char>) -> bool {
    exists|i: int| 0 <= i < choices.len() && (#[trigger] choices[i])@ == text
}

/// Whether `text` is one of `choices`.
pub fn find_choice(choices: &Vec<String>, text: &str) -> (b: bool)
    ensures
        b == is_choice(choices@, text@),
{
    let mut i: usize = 0;
    while i < choices.len()
        invariant
            i <= choices@.len(),
            forall|j: int| 0 <= j < i ==> (#[trigger] choices@[j])@ != text@,
        decreases choices@.len() - i,
    {
        if str_eq(choices[i].as_str(), text) {
            return true;
        }
        i += 1;
    }
    false
}

/// What reading `text` as a value of an option of this type gives, where
/// `integer` is the whole number that the text stands for, if it stands for
/// one: the text itself for a string or a path, that number for an integer,
/// `true` or `false` for these two words, and the text itself for a choice
/// if it is one of the choices.
pub open spec fn read_as(
    parameter: ParameterType,
    text: Seq<char>,
    integer: Option<i64>,
) -> Option<ParameterValue> {
    match parameter {
        ParameterType::String(_) => Some(ParameterValue::Text(text)),
        ParameterType::FileSystemPath(_) => Some(ParameterValue::Text(text)),
        ParameterType::Integer(_) => match integer {
            Some(n) => Some(ParameterValue::Integer(n)),
            None => None,
        },
        ParameterType::Boolean(_) => if text == "true"@ {
            Some(ParameterValue::Boolean(true))
        } else if text == "false"@ {
            Some(ParameterValue::Boolean(false))
        } else {
            None
        },
        ParameterType::Enum { choices, .. } => if is_choice(choices@, text) {
            Some(ParameterValue::Text(text))
        } else {
            None
        },
        ParameterType::Double(_) => None,
    }
}

/// A value read from text.
pub enum ParameterValue {
    Text(Seq<char>),
    Integer(i64),
    Boolean(bool),
}

/// Whether the option holds `value`, and is otherwise as `before` was.
pub open spec fn holds_value(
    before: ParameterType,
    after: ParameterType,
    value: ParameterValue,
) -> bool {
    match (before, after, value) {
        (ParameterType::String(_), ParameterType::String(Some(s)), ParameterValue::Text(t)) => s@
            == t,
        (
            ParameterType::FileSystemPath(p),
            ParameterType::FileSystemPath(q),
            ParameterValue::Text(t),
        ) => q.must_exist == p.must_exist && (q.value matches Some(s) && s@ == t),
        (
            ParameterType::Integer(_),
            ParameterType::Integer(Some(n)),
            ParameterValue::Integer(m),
        ) => n == m,
        (
            ParameterType::Boolean(_),
            ParameterType::Boolean(Some(b)),
            ParameterValue::Boolean(c),
        ) => b == c,
        (
            ParameterType::Enum { choices, .. },
            ParameterType::Enum { choices: after_choices, value: Some(s) },
            ParameterValue::Text(t),
        ) => after_choices@ == choices@ && s@ == t,
        _ => false,
    }
}

impl Parameters {
    /// No options.
    pub fn new() -> (r: Self)
        ensures
            r.entries@.len() == 0,
    {
        Parameters { entries: Vec::new() }
    }

    /// Defines the option `name`; an option of that name defined before is
    /// replaced and keeps its place.
    pub fn define(&mut self, name: String, entry: ParameterEntry)
        ensures
            named(final(self).entries@) == with_entry(named(old(self).entries@), name@, entry),
    {
        insert_entry(&mut self.entries, name, entry);
    }

    /// The place of the option `name`, if there is one.
    pub fn find(&self, name: &str) -> (at: Option<usize>)
        ensures
            at is Some == has_key(named(self.entries@), name@),
            at matches Some(i) ==> i == key_index(named(self.entries@), name@) && i
                < self.entries@.len(),
    {
        let key = name.to_owned();
        find_entry(&self.entries, &key)
    }

    /// The path that the option `name` holds, if it is there, takes a path
    /// and has a value.
    pub open spec fn spec_path_value(&self, name: Seq<char>) -> Option<String> {
        if has_key(named(self.entries@), name) {
            match self.entries@[key_index(named(self.entries@), name)].1.parameter {
                ParameterType::FileSystemPath(p) => p.value,
                _ => None,
            }
        } else {
            None
        }
    }

    /// The path that the option `name` holds, if it is there, takes a path
    /// and has a value.
    pub fn path_value(&self, name: &str) -> (r: Option<&String>)
        ensures
            r is Some == self.spec_path_value(name@) is Some,
            r matches Some(path) ==> Some(*path) == self.spec_path_value(name@),
    {
        match self.find(name) {
            Some(i) => match &self.entries[i].1.parameter {
                ParameterType::FileSystemPath(p) => match &p.value {
                    Some(path) => Some(path),
                    None => None,
                },
                _ => None,
            },
            None => None,
        }
    }

    /// Gives the option `key` the value that `text` stands for, reading the
    /// text as a whole number first. Nothing changes where there is no such
    /// option, where the text is no value of its type, or where the option
    /// takes a number with a fraction.
    pub fn update_value_with_str(&mut self, key: &str, text: &str) -> (r: Result<
        (),
        ParameterError,
    >)
        ensures
            !has_key(named(old(self).entries@), key@) ==> *final(self) == *old(self) && (
            r matches Err(ParameterError::Unknown(k)) && k@ == key@),
            has_key(named(old(self).entries@), key@) ==> {
                let at = key_index(named(old(self).entries@), key@);
                let before = old(self).entries@[at].1;
                match read_as(before.parameter, text@, parsed_integer(text@)) {
                    Some(value) => {
                        &&& r is Ok
                        &&& final(self).entries@.len() == old(self).entries@.len()
                        &&& forall|i: int|
                            0 <= i < old(self).entries@.len() && i != at ==> final(self).entries@[i] == old(self).entries@[i]
                        &&& final(self).entries@[at].0@ == key@
                        &&& final(self).entries@[at].1.description == before.description
                        &&& final(self).entries@[at].1.required == before.required
                        &&& holds_value(
                            before.parameter,
                            final(self).entries@[at].1.parameter,
                            value,
                        )
                    },
                    None => {
                        &&& *final(self) == *old(self)
                        &&& if before.parameter is Double {
                            r matches Err(ParameterError::DoubleAsText(k)) && k@ == key@
                        } else {
                            r matches Err(ParameterError::InvalidValue(k)) && k@ == key@
                        }
                    },
                }
            },
    {
        let integer = parse_integer(text);
        self.update_value(key, text, integer)
    }

    /// Gives the option `key` the value that `text` stands for, where
    /// `integer` is the whole number that the text reads as, if it reads as
    /// one. Nothing changes where there is no such option, where the text is
    /// no value of its type, or where the option takes a number with a
    /// fraction.
    pub fn update_value(&mut self, key: &str, text: &str, integer: Option<i64>) -> (r: Result<
        (),
        ParameterError,
    >)
        ensures
            !has_key(named(old(self).entries@), key@) ==> *final(self) == *old(self) && (
            r matches Err(ParameterError::Unknown(k)) && k@ == key@),
            has_key(named(old(self).entries@), key@) ==> {
                let at = key_index(named(old(self).entries@), key@);
                let before = old(self).entries@[at].1;
                match read_as(before.parameter, text@, integer) {
                    Some(value) => {
                        &&& r is Ok
                        &&& final(self).entries@.len() == old(self).entries@.len()
                        &&& forall|i: int|
                            0 <= i < old(self).entries@.len() && i != at ==> final(self).entries@[i] == old(self).entries@[i]
                        &&& final(self).entries@[at].0@ == key@
                        &&& final(self).entries@[at].1.description == before.description
                        &&& final(self).entries@[at].1.required == before.required
                        &&& holds_value(
                            before.parameter,
                            final(self).entries@[at].1.parameter,
                            value,
                        )
                    },
                    None => {
                        &&& *final(self) == *old(self)
                        &&& if before.parameter is Double {
                            r matches Err(ParameterError::DoubleAsText(k)) && k@ == key@
                        } else {
                            r matches Err(ParameterError::InvalidValue(k)) && k@ == key@
                        }
                    },
                }
            },
    {
        let Some(at) = self.find(key) else {
            return Err(ParameterError::Unknown(key.to_owned()));
        };
        let parameter = match &self.entries[at].1.parameter {
            ParameterType::String(_) => ParameterType::String(Some(text.to_owned())),
            ParameterType::FileSystemPath(p) => ParameterType::FileSystemPath(
                FileSystemPathParameter { value: Some(text.to_owned()), must_exist: p.must_exist },
            ),
            ParameterType::Integer(_) => match integer {
                Some(n) => ParameterType::Integer(Some(n)),
                None => {
                    return Err(ParameterError::InvalidValue(key.to_owned()));
                },
            },
            ParameterType::Boolean(_) => if str_eq(text, "true") {
                ParameterType::Boolean(Some(true))
            } else if str_eq(text, "false") {
                ParameterType::Boolean(Some(false))
            } else {
                return Err(ParameterError::InvalidValue(key.to_owned()));
            },
            ParameterType::Enum { choices, .. } => {
                if !find_choice(choices, text) {
                    return Err(ParameterError::InvalidValue(key.to_owned()));
                }
                let mut i: usize = 0;
                let mut copy: Vec<String> = Vec::new();
                while i < choices.len()
                    invariant
                        i <= choices@.len(),
                        copy@ == choices@.take(i as int),
                    decreases choices@.len() - i,
                {
                    copy.push(choices[i].clone());
                    assert(copy@ =~= choices@.take(i + 1));
                    i += 1;
                }
                assert(choices@.take(choices@.len() as int) =~= choices@);
                assert(copy@ == choices@);
                ParameterType::Enum { choices: copy, value: Some(text.to_owned()) }
            },
            ParameterType::Double(_) => {
                return Err(ParameterError::DoubleAsText(key.to_owned()));
            },
        };
        let entry = ParameterEntry {
            description: self.entries[at].1.description.clone(),
            required: self.entries[at].1.required,
            parameter,
        };
        self.entries.set(at, (key.to_owned(), entry));
        Ok(())
    }

    /// Gives the option `key`, which takes a number with a fraction, the
    /// number with these bits. Nothing changes where there is no such
    /// option or where it is of another type.
    pub fn set_double(&mut self, key: &str, bits: u64) -> (r: Result<(), ParameterError>)
        ensures
            r is Ok == (has_key(named(old(self).entries@), key@) && old(self).entries@[key_index(
                named(old(self).entries@),
                key@,
            )].1.parameter is Double),
            r is Err ==> *final(self) == *old(self),
            r matches Err(e) ==> if has_key(named(old(self).entries@), key@) {
                e matches ParameterError::InvalidValue(k) && k@ == key@
            } else {
                e matches ParameterError::Unknown(k) && k@ == key@
            },
            r is Ok ==> {
                let at = key_index(named(old(self).entries@), key@);
                &&& final(self).entries@.len() == old(self).entries@.len()
                &&& forall|i: int|
                    0 <= i < old(self).entries@.len() && i != at ==> final(self).entries@[i] == old(self).entries@[i]
                &&& final(self).entries@[at].0@ == key@
                &&& final(self).entries@[at].1.parameter == ParameterType::Double(Some(bits))
                &&& final(self).entries@[at].1.required == old(self).entries@[at].1.required
                &&& final(self).entries@[at].1.description == old(self).entries@[at].1.description
            },
    {
        let Some(at) = self.find(key) else {
            return Err(ParameterError::Unknown(key.to_owned()));
        };
        match &self.entries[at].1.parameter {
            ParameterType::Double(_) => {},
            _ => {
                return Err(ParameterError::InvalidValue(key.to_owned()));
            },
        }
        let entry = ParameterEntry {
            description: self.entries[at].1.description.clone(),
            required: self.entries[at].1.required,
            parameter: ParameterType::Double(Some(bits)),
        };
        self.entries.set(at, (key.to_owned(), entry));
        Ok(())
    }

    /// Whether every required option has a value.
    pub open spec fn spec_valid(&self) -> bool {
        forall|i: int|
            0 <= i < self.entries@.len() && (#[trigger] self.entries@[i]).1.required
                ==> self.entries@[i].1.parameter.spec_has_value()
    }

    /// Checks that every required option has a value; the first that has
    /// none is named.
    pub fn validate(&self) -> (r: Result<(), ParameterError>)
        ensures
            r is Ok == self.spec_valid(),
            r matches Err(e) ==> e matches ParameterError::Missing(name) && exists|i: int|
                0 <= i < self.entries@.len() && (#[trigger] self.entries@[i]).0@ == name@
                    && self.entries@[i].1.required && !self.entries@[i].1.parameter.spec_has_value(
                ),
    {
        let mut i: usize = 0;
        while i < self.entries.len()
            invariant
                i <= self.entries@.len(),
                forall|j: int|
                    0 <= j < i && (#[trigger] self.entries@[j]).1.required
                        ==> self.entries@[j].1.parameter.spec_has_value(),
            decreases self.entries@.len() - i,
        {
            if self.entries[i].1.required && !self.entries[i].1.parameter.has_value() {
                return Err(ParameterError::Missing(self.entries[i].0.clone()));
            }
            i += 1;
        }
        Ok(())
    }
}

} // verus!
