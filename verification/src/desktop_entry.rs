//! The desktop entry of an application: the fields of the `Desktop Entry`
//! group of a key file that a launcher needs, checked and typed.

use vstd::prelude::*;
use crate::error::Error;
use crate::grammar::parsed;
use crate::key_file::{truth_of, value_of, KeyFile};
use crate::model::{Groups, KeyId};
use crate::text::{borrow_opt_text, opt_str, opt_text, same_text};

verus! {

/// What a desktop entry holds.
pub struct EntryFields {
    pub name: Seq<char>,
    pub generic_name: Option<Seq<char>>,
    pub command: Seq<char>,
    pub working_dir: Option<Seq<char>>,
    pub hidden: bool,
    pub no_display: bool,
}

/// The value of `key`, without a locale, in the group `Desktop Entry`.
pub open spec fn entry_field(groups: Groups, key: Seq<char>) -> Option<Seq<char>> {
    value_of(groups, "Desktop Entry"@, KeyId { name: key, locale: None })
}

/// Whether `key` is set to `true` in the group `Desktop Entry`. A key
/// that is missing, or whose value is no truth value, is not set.
pub open spec fn entry_flag(groups: Groups, key: Seq<char>) -> bool {
    match entry_field(groups, key) {
        Some(value) => truth_of(value) == Some(true),
        None => false,
    }
}

/// The desktop entry that `groups` describes.
///
/// There is one only where `Type` is `Application`, and `Name` and `Exec`
/// are present. The type is looked at first: where it is missing or
/// another, that is the error, whatever else is missing.
pub open spec fn entry_of(groups: Groups) -> Result<EntryFields, Error> {
    if entry_field(groups, "Type"@) != Some("Application"@) {
        Err(Error::SchemaMismatch)
    } else if entry_field(groups, "Name"@) is None || entry_field(groups, "Exec"@) is None {
        Err(Error::MissingRequiredField)
    } else {
        Ok(
            EntryFields {
                name: entry_field(groups, "Name"@).unwrap(),
                generic_name: entry_field(groups, "GenericName"@),
                command: entry_field(groups, "Exec"@).unwrap(),
                working_dir: entry_field(groups, "Path"@),
                hidden: entry_flag(groups, "Hidden"@),
                no_display: entry_flag(groups, "NoDisplay"@),
            },
        )
    }
}

/// The desktop entry that the bytes of a key file describe.
pub open spec fn entry_of_bytes(s: Seq<u8>) -> Result<EntryFields, Error> {
    match parsed(s) {
        Some(groups) => entry_of(groups),
        None => Err(Error::Parse),
    }
}

/// The schema is enforced: there is a desktop entry exactly where the type
/// is `Application` and both name and command are present; another type,
/// or none, is a schema mismatch, and with the right type a missing name
/// or command is a missing required field.
pub proof fn lemma_schema_is_enforced(groups: Groups)
    ensures
        entry_of(groups) is Ok <==> (entry_field(groups, "Type"@) == Some("Application"@)
            && entry_field(groups, "Name"@) is Some && entry_field(groups, "Exec"@) is Some),
        entry_of(groups) == Err::<EntryFields, Error>(Error::SchemaMismatch) <==> entry_field(
            groups,
            "Type"@,
        ) != Some("Application"@),
        entry_of(groups) == Err::<EntryFields, Error>(Error::MissingRequiredField) <==> (
        entry_field(groups, "Type"@) == Some("Application"@) && (entry_field(groups, "Name"@)
            is None || entry_field(groups, "Exec"@) is None)),
{
}

/// The desktop entry of an application. It holds copies of what it was
/// read from, and does not change.
#[derive(Debug)]
pub struct DesktopEntry {
    name: String,
    generic_name: Option<String>,
    command: String,
    working_dir: Option<String>,
    hidden: bool,
    no_display: bool,
}

impl View for DesktopEntry {
    type V = EntryFields;

    closed spec fn view(&self) -> EntryFields {
        EntryFields {
            name: self.name@,
            generic_name: opt_text(self.generic_name),
            command: self.command@,
            working_dir: opt_text(self.working_dir),
            hidden: self.hidden,
            no_display: self.no_display,
        }
    }
}

/// A copy of an optional string slice.
fn owned(text: Option<&str>) -> (r: Option<String>)
    ensures
        opt_text(r) == opt_str(text),
{
    match text {
        Some(t) => Some(t.to_owned()),
        None => None,
    }
}

impl DesktopEntry {
    /// The desktop entry that `file` describes.
    pub fn from_key_file(file: &KeyFile) -> (r: Result<DesktopEntry, Error>)
        ensures
            match r {
                Ok(entry) => entry_of(file@) == Ok::<EntryFields, Error>(entry@),
                Err(err) => entry_of(file@) == Err::<EntryFields, Error>(err),
            },
    {
        let group = "Desktop Entry";
        match file.get_default_string(group, "Type") {
            Some(kind) => if !same_text(kind, "Application") {
                return Err(Error::SchemaMismatch);
            },
            None => {
                return Err(Error::SchemaMismatch);
            },
        }
        let name = match file.get_default_string(group, "Name") {
            Some(name) => name.to_owned(),
            None => {
                return Err(Error::MissingRequiredField);
            },
        };
        let command = match file.get_default_string(group, "Exec") {
            Some(command) => command.to_owned(),
            None => {
                return Err(Error::MissingRequiredField);
            },
        };
        let generic_name = owned(file.get_default_string(group, "GenericName"));
        let working_dir = owned(file.get_default_string(group, "Path"));
        let hidden = match file.get_boolean(group, "Hidden") {
            Some(flag) => flag,
            None => false,
        };
        let no_display = match file.get_boolean(group, "NoDisplay") {
            Some(flag) => flag,
            None => false,
        };
        Ok(DesktopEntry { name, generic_name, command, working_dir, hidden, no_display })
    }

    /// The desktop entry that the bytes of a key file describe.
    pub fn from_bytes(buf: &[u8]) -> (r: Result<DesktopEntry, Error>)
        ensures
            match r {
                Ok(entry) => entry_of_bytes(buf@) == Ok::<EntryFields, Error>(entry@),
                Err(err) => entry_of_bytes(buf@) == Err::<EntryFields, Error>(err),
            },
    {
        match KeyFile::read_bytes(buf) {
            Ok(file) => DesktopEntry::from_key_file(&file),
            Err(err) => Err(err),
        }
    }

    /// The name of the application.
    pub fn name(&self) -> (r: &str)
        ensures
            r@ == self@.name,
    {
        self.name.as_str()
    }

    /// What kind of application it is, in a word or two.
    pub fn generic_name(&self) -> (r: Option<&str>)
        ensures
            opt_str(r) == self@.generic_name,
    {
        borrow_opt_text(&self.generic_name)
    }

    /// The command that starts the application.
    pub fn exec(&self) -> (r: &str)
        ensures
            r@ == self@.command,
    {
        self.command.as_str()
    }

    /// The directory in which the application is started.
    pub fn working_dir(&self) -> (r: Option<&str>)
        ensures
            opt_str(r) == self@.working_dir,
    {
        borrow_opt_text(&self.working_dir)
    }

    /// Whether the application is shown in menus: it is unless it is
    /// hidden or marked as not to be displayed.
    pub fn visible(&self) -> (r: bool)
        ensures
            r == (!self@.hidden && !self@.no_display),
    {
        !self.hidden && !self.no_display
    }
}

} // verus!
