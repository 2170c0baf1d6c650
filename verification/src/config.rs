//! The settings of one run, checked once when they are built.

use crate::text::{chars_of, same_text, strip_char, without};
use vstd::prelude::*;

verus! {

/// Why a set of settings was turned down.
#[derive(Clone, Copy, Debug, PartialEq, Eq, Structural)]
pub enum ConfigError {
    /// No extension was given.
    NoExtensions,
    /// No separator was given.
    NoSeparator,
    /// More than two separators were given.
    TooManySeparators,
    /// A separator is the empty string.
    EmptySeparator,
    /// A separator is the comma, which is kept for lists of values.
    CommaSeparator,
}

/// What a `RenameConfig` holds, as plain values.
pub struct ConfigView {
    pub directory: Seq<char>,
    pub extensions: Set<Seq<char>>,
    pub split_separator: Seq<char>,
    pub join_separator: Seq<char>,
    pub padding: Seq<char>,
    pub recursive: bool,
}

/// The settings of one run. A value of this type has passed `ConfigView::valid`.
pub struct RenameConfig {
    directory: String,
    extensions: Vec<String>,
    split_separator: String,
    join_separator: String,
    padding: String,
    recursive: bool,
}

/// The mark that a shell user puts before a separator to keep it from being
/// read as an option.
pub const ESCAPE: char = '\\';

/// The comma, as text.
pub open spec fn comma() -> Seq<char> {
    seq![',']
}

/// The texts of a list of strings, as a set.
pub open spec fn text_set(list: Seq<String>) -> Set<Seq<char>> {
    Set::new(|text: Seq<char>| exists|i: int| 0 <= i < list.len() && #[trigger] list[i]@ == text)
}

/// The first fault of a pair of separators, if it has one.
pub open spec fn separator_fault(split: Seq<char>, join: Seq<char>) -> Option<ConfigError> {
    if split.len() == 0 || join.len() == 0 {
        Some(ConfigError::EmptySeparator)
    } else if split == comma() || join == comma() {
        Some(ConfigError::CommaSeparator)
    } else {
        None
    }
}

/// What `RenameConfig::new` makes of its arguments. An empty list of
/// extensions is turned down first, then an empty separator, then a comma.
pub open spec fn checked_settings(
    directory: Seq<char>,
    extensions: Seq<String>,
    split_separator: Seq<char>,
    join_separator: Seq<char>,
    padding: Seq<char>,
    recursive: bool,
) -> Result<ConfigView, ConfigError> {
    if extensions.len() == 0 {
        Err(ConfigError::NoExtensions)
    } else {
        match separator_fault(split_separator, join_separator) {
            Some(fault) => Err(fault),
            None => Ok(
                ConfigView {
                    directory,
                    extensions: text_set(extensions),
                    split_separator,
                    join_separator,
                    padding,
                    recursive,
                },
            ),
        }
    }
}

/// What `RenameConfig::from_options` makes of its arguments. There must be
/// one separator or two. The first, with every escape mark taken out, is the
/// split separator; the second is the join separator, and where it is
/// missing the split separator joins as well.
pub open spec fn settings_from_options(
    directory: Seq<char>,
    extensions: Seq<String>,
    separators: Seq<String>,
    padding: Seq<char>,
    recursive: bool,
) -> Result<ConfigView, ConfigError> {
    if separators.len() == 0 {
        Err(ConfigError::NoSeparator)
    } else if separators.len() > 2 {
        Err(ConfigError::TooManySeparators)
    } else {
        let split = without(separators[0]@, ESCAPE);
        let join = if separators.len() == 2 {
            separators[1]@
        } else {
            split
        };
        checked_settings(directory, extensions, split, join, padding, recursive)
    }
}

/// The settings or the fault, as plain values.
pub open spec fn view_of(made: Result<RenameConfig, ConfigError>) -> Result<
    ConfigView,
    ConfigError,
> {
    match made {
        Ok(config) => Ok(config@),
        Err(fault) => Err(fault),
    }
}

impl ConfigView {
    /// There is an extension to match, and both separators are non-empty
    /// and other than the comma.
    pub open spec fn valid(self) -> bool {
        &&& exists|ext: Seq<char>| self.extensions.contains(ext)
        &&& separator_fault(self.split_separator, self.join_separator) is None
    }
}

impl View for RenameConfig {
    type V = ConfigView;

    closed spec fn view(&self) -> ConfigView {
        ConfigView {
            directory: self.directory@,
            extensions: text_set(self.extensions@),
            split_separator: self.split_separator@,
            join_separator: self.join_separator@,
            padding: self.padding@,
            recursive: self.recursive,
        }
    }
}

/// Whether `text` is the comma.
fn is_comma(text: &str) -> (yes: bool)
    ensures
        yes == (text@ == comma()),
{
    let chars = chars_of(text);
    let yes = chars.len() == 1 && chars[0] == ',';
    assert(yes == (chars@ =~= comma()));
    yes
}

impl RenameConfig {
    /// What holds of every `RenameConfig`: its settings are valid.
    #[verifier::type_invariant]
    pub open spec fn inv(&self) -> bool {
        self@.valid()
    }

    /// Checks the settings and keeps them: `checked_settings` says what
    /// comes back.
    pub fn new(
        directory: String,
        extensions: Vec<String>,
        split_separator: String,
        join_separator: String,
        padding: String,
        recursive: bool,
    ) -> (made: Result<RenameConfig, ConfigError>)
        ensures
            view_of(made) == checked_settings(
                directory@,
                extensions@,
                split_separator@,
                join_separator@,
                padding@,
                recursive,
            ),
            made matches Ok(config) ==> config@.valid(),
    {
        if extensions.len() == 0 {
            return Err(ConfigError::NoExtensions);
        }
        if split_separator.as_str().is_empty() || join_separator.as_str().is_empty() {
            return Err(ConfigError::EmptySeparator);
        }
        if is_comma(split_separator.as_str()) || is_comma(join_separator.as_str()) {
            return Err(ConfigError::CommaSeparator);
        }
        proof {
            let kept = ConfigView {
                directory: directory@,
                extensions: text_set(extensions@),
                split_separator: split_separator@,
                join_separator: join_separator@,
                padding: padding@,
                recursive,
            };
            assert(kept.extensions.contains(extensions@[0]@));
        }
        Ok(
            RenameConfig {
                directory,
                extensions,
                split_separator,
                join_separator,
                padding,
                recursive,
            },
        )
    }

    /// Builds the settings from the values of the command line. `separators`
    /// holds the split separator and, if there is a second value, the join
    /// separator: `settings_from_options` says what comes back.
    pub fn from_options(
        directory: String,
        extensions: Vec<String>,
        separators: Vec<String>,
        padding: String,
        recursive: bool,
    ) -> (made: Result<RenameConfig, ConfigError>)
        ensures
            view_of(made) == settings_from_options(
                directory@,
                extensions@,
                separators@,
                padding@,
                recursive,
            ),
            made matches Ok(config) ==> config@.valid(),
    {
        if separators.len() == 0 {
            return Err(ConfigError::NoSeparator);
        }
        if separators.len() > 2 {
            return Err(ConfigError::TooManySeparators);
        }
        let split = strip_char(separators[0].as_str(), ESCAPE);
        let join = if separators.len() == 2 {
            separators[1].clone()
        } else {
            split.clone()
        };
        RenameConfig::new(directory, extensions, split, join, padding, recursive)
    }

    /// The directory where the run starts.
    pub fn directory(&self) -> (directory: &str)
        ensures
            directory@ == self@.directory,
    {
        self.directory.as_str()
    }

    /// The extensions to match, as they were given.
    pub fn extensions(&self) -> (extensions: &Vec<String>)
        ensures
            text_set(extensions@) == self@.extensions,
    {
        &self.extensions
    }

    /// The separator at whose last occurrence a base name is split.
    pub fn split_separator(&self) -> (separator: &str)
        ensures
            separator@ == self@.split_separator,
    {
        self.split_separator.as_str()
    }

    /// The separator that joins the exchanged pieces.
    pub fn join_separator(&self) -> (separator: &str)
        ensures
            separator@ == self@.join_separator,
    {
        self.join_separator.as_str()
    }

    /// The padding on both sides of the join separator.
    pub fn padding(&self) -> (padding: &str)
        ensures
            padding@ == self@.padding,
    {
        self.padding.as_str()
    }

    /// Whether subdirectories are entered.
    pub fn recursive(&self) -> (recursive: bool)
        ensures
            recursive == self@.recursive,
    {
        self.recursive
    }

    /// Whether `extension` is one of the extensions to match. The comparison
    /// is exact: no case folding, no leading dot.
    pub fn matches_extension(&self, extension: &str) -> (matches: bool)
        ensures
            matches == self@.extensions.contains(extension@),
    {
        let wanted = chars_of(extension);
        let mut i: usize = 0;
        while i < self.extensions.len()
            invariant
                i <= self.extensions.len(),
                wanted@ == extension@,
                forall|j: int| 0 <= j < i ==> self.extensions@[j]@ != extension@,
            decreases self.extensions.len() - i,
        {
            let candidate = chars_of(self.extensions[i].as_str());
            if same_text(&candidate, &wanted) {
                return true;
            }
            i += 1;
        }
        false
    }
}

} // verus!
