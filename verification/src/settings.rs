//! User settings: a flat `key = value` file.

use vstd::prelude::*;

use crate::desktop::{join_path, path_join};
use crate::text::{
    chars_of, decimal, decimal_of, extend, key_value, key_value_of, lines, lines_of, number_of,
    parsed_number, same_chars, text_of, texts, trim, trimmed,
};

verus! {

/// A megabyte, in bytes.
pub const MEGABYTE: u64 = 1048576;

/// Frames live in RAM as RGBA, so these are the numbers that decide how much
/// of a long video can be open at once. Three budgets: imports cap what one
/// decode may land, operations cap what one edit (a resize, …) may produce,
/// and the total caps old frames plus new — undo keeps the old ones while a
/// worker holds the new, so the transient peak is the sum. 4 GB is around
/// 1100 frames at 1280x720.
pub const DEFAULT_MAX_IMPORT_BYTES: u64 = 4294967296;

pub const DEFAULT_MAX_OPER_BYTES: u64 = 4294967296;

pub const DEFAULT_MAX_TOTAL_BYTES: u64 = 8589934592;

#[derive(Debug)]
pub struct Settings {
    pub max_import_bytes: u64,
    pub max_oper_bytes: u64,
    pub max_total_bytes: u64,
    /// Overrides the locale from the environment. `None` means follow LANGUAGE
    /// and friends, which is what a desktop user expects.
    pub language: Option<String>,
}

/// What `Settings` holds.
pub struct SettingsView {
    pub max_import_bytes: u64,
    pub max_oper_bytes: u64,
    pub max_total_bytes: u64,
    pub language: Option<Seq<char>>,
}

impl View for Settings {
    type V = SettingsView;

    open spec fn view(&self) -> SettingsView {
        SettingsView {
            max_import_bytes: self.max_import_bytes,
            max_oper_bytes: self.max_oper_bytes,
            max_total_bytes: self.max_total_bytes,
            language: match self.language {
                Some(l) => Some(l@),
                None => None,
            },
        }
    }
}

impl Default for Settings {
    fn default() -> (r: Settings)
        ensures
            r@ == (SettingsView {
                max_import_bytes: DEFAULT_MAX_IMPORT_BYTES,
                max_oper_bytes: DEFAULT_MAX_OPER_BYTES,
                max_total_bytes: DEFAULT_MAX_TOTAL_BYTES,
                language: None,
            }),
    {
        Settings {
            max_import_bytes: DEFAULT_MAX_IMPORT_BYTES,
            max_oper_bytes: DEFAULT_MAX_OPER_BYTES,
            max_total_bytes: DEFAULT_MAX_TOTAL_BYTES,
            language: None,
        }
    }
}

/// The bytes a setting in megabytes stands for, if it is a number above
/// nothing. What does not fit is cut off above, as a shift does.
pub open spec fn budget(value: Seq<char>) -> Option<u64> {
    match parsed_number(trimmed(value), usize::MAX as nat) {
        Some(mb) => if mb > 0 {
            Some(((mb as int * MEGABYTE) % 0x1_0000_0000_0000_0000) as u64)
        } else {
            None
        },
        None => None,
    }
}

impl SettingsView {
    /// After one line. Anything that is not a setting with a value it can have
    /// leaves everything as it was.
    pub open spec fn applied_line(self, line: Seq<char>) -> SettingsView {
        match key_value(line) {
            Some((key, value)) => if key == "max_import_memory_mb"@ {
                match budget(value) {
                    Some(bytes) => SettingsView { max_import_bytes: bytes, ..self },
                    None => self,
                }
            } else if key == "max_oper_memory_mb"@ {
                match budget(value) {
                    Some(bytes) => SettingsView { max_oper_bytes: bytes, ..self },
                    None => self,
                }
            } else if key == "max_total_memory_mb"@ {
                match budget(value) {
                    Some(bytes) => SettingsView { max_total_bytes: bytes, ..self },
                    None => self,
                }
            } else if key == "language"@ {
                SettingsView {
                    language: if trimmed(value).len() > 0 {
                        Some(trimmed(value))
                    } else {
                        None
                    },
                    ..self
                }
            } else {
                self
            },
            None => self,
        }
    }

    /// After these lines.
    pub open spec fn applied(self, lines: Seq<Seq<char>>) -> SettingsView
        decreases lines.len(),
    {
        if lines.len() == 0 {
            self
        } else {
            self.applied_line(lines[0]).applied(lines.skip(1))
        }
    }
}

/// The bytes a setting in megabytes stands for.
fn budget_of(value: &Vec<char>) -> (r: Option<u64>)
    ensures
        r == budget(value@),
{
    match number_of(&trim(value)) {
        Some(mb) => if mb > 0 {
            let wide: u128 = mb as u128 * MEGABYTE as u128;
            Some((wide % 0x1_0000_0000_0000_0000) as u64)
        } else {
            None
        },
        None => None,
    }
}

impl Settings {
    /// Anything missing or unparseable leaves the current value alone.
    pub fn apply(&mut self, text: &str)
        ensures
            final(self)@ == old(self)@.applied(lines(text@)),
    {
        let all = lines_of(&chars_of(text));
        let ghost want = lines(text@);
        let mut i: usize = 0;
        assert(want.skip(0) =~= want);
        while i < all.len()
            invariant
                i <= all@.len(),
                want == texts(all@),
                self@.applied(want.skip(i as int)) == old(self)@.applied(want),
            decreases all@.len() - i,
        {
            assert(want.skip(i as int)[0] == all@[i as int]@);
            assert(want.skip(i as int).skip(1) =~= want.skip(i + 1));
            self.apply_line(&all[i]);
            i = i + 1;
        }
    }

    fn apply_line(&mut self, line: &Vec<char>)
        ensures
            final(self)@ == old(self)@.applied_line(line@),
    {
        let (key, value) = match key_value_of(line) {
            Some(found) => found,
            None => {
                return ;
            },
        };
        if same_chars(&key, &chars_of("max_import_memory_mb")) {
            if let Some(bytes) = budget_of(&value) {
                self.max_import_bytes = bytes;
            }
        } else if same_chars(&key, &chars_of("max_oper_memory_mb")) {
            if let Some(bytes) = budget_of(&value) {
                self.max_oper_bytes = bytes;
            }
        } else if same_chars(&key, &chars_of("max_total_memory_mb")) {
            if let Some(bytes) = budget_of(&value) {
                self.max_total_bytes = bytes;
            }
        } else if same_chars(&key, &chars_of("language")) {
            let value = trim(&value);
            self.language = if value.len() > 0 {
                Some(text_of(&value))
            } else {
                None
            };
        }
    }
}

/// The file left behind on first run: the defaults, each with a comment.
pub open spec fn template_text() -> Seq<char> {
    "# gifkino settings\n\n# Most memory an import may use for decoded frames, in MB.\n# Videos that need more are refused until you choose a smaller\n# size or a lower frame rate in the import dialog.\nmax_import_memory_mb = "@
        + decimal((DEFAULT_MAX_IMPORT_BYTES / MEGABYTE) as nat)
        + "\n\n# Most memory one frame operation (a resize, …) may produce, in MB.\nmax_oper_memory_mb = "@
        + decimal((DEFAULT_MAX_OPER_BYTES / MEGABYTE) as nat)
        + "\n\n# Most memory frames may hold in total, in MB: the document plus\n# what the operation produces, since undo keeps the old frames.\nmax_total_memory_mb = "@
        + decimal((DEFAULT_MAX_TOTAL_BYTES / MEGABYTE) as nat)
        + "\n\n# Interface language, as a po/ catalog name such as de or ja.\n# Leave empty to follow LANGUAGE, LC_ALL, LC_MESSAGES or LANG.\nlanguage =\n"@
}

/// A commented default to leave behind on first run, so the file is
/// discoverable without the app having to advertise it.
pub fn template() -> (r: String)
    ensures
        r@ == template_text(),
{
    let mut out = chars_of(
        "# gifkino settings\n\n# Most memory an import may use for decoded frames, in MB.\n# Videos that need more are refused until you choose a smaller\n# size or a lower frame rate in the import dialog.\nmax_import_memory_mb = ",
    );
    extend(&mut out, &decimal_of(DEFAULT_MAX_IMPORT_BYTES / MEGABYTE));
    extend(
        &mut out,
        &chars_of(
            "\n\n# Most memory one frame operation (a resize, …) may produce, in MB.\nmax_oper_memory_mb = ",
        ),
    );
    extend(&mut out, &decimal_of(DEFAULT_MAX_OPER_BYTES / MEGABYTE));
    extend(
        &mut out,
        &chars_of(
            "\n\n# Most memory frames may hold in total, in MB: the document plus\n# what the operation produces, since undo keeps the old frames.\nmax_total_memory_mb = ",
        ),
    );
    extend(&mut out, &decimal_of(DEFAULT_MAX_TOTAL_BYTES / MEGABYTE));
    extend(
        &mut out,
        &chars_of(
            "\n\n# Interface language, as a po/ catalog name such as de or ja.\n# Leave empty to follow LANGUAGE, LC_ALL, LC_MESSAGES or LANG.\nlanguage =\n",
        ),
    );
    text_of(&out)
}

/// A line that is blank, a comment or without an equals sign changes no
/// setting, and neither does a budget that is not a number above nothing.
pub proof fn law_junk_changes_nothing(s: SettingsView, line: Seq<char>)
    requires
        match key_value(line) {
            Some((key, value)) => key != "language"@ && budget(value) is None,
            None => true,
        },
    ensures
        s.applied_line(line) == s,
{
}

/// Whether a path starts at the root.
pub open spec fn absolute(path: Seq<char>) -> bool {
    path.len() > 0 && path[0] == '/'
}

/// The user's directory of a kind: the one the environment names, where that
/// is an absolute path, else the usual one under the home directory.
pub open spec fn user_dir(
    named: Option<Seq<char>>,
    home: Option<Seq<char>>,
    usual: Seq<char>,
) -> Option<Seq<char>> {
    match (named, home) {
        (Some(dir), _) if absolute(dir) => Some(dir),
        (_, Some(home)) => Some(path_join(home, usual)),
        _ => None,
    }
}

/// What an optional text holds.
pub open spec fn optional_text(text: Option<&str>) -> Option<Seq<char>> {
    match text {
        Some(s) => Some(s@),
        None => None,
    }
}

/// The user's directory of a kind, from what the environment names and the
/// home directory.
pub fn user_directory(named: Option<&str>, home: Option<&str>, usual: &str) -> (r: Option<Vec<char>>)
    ensures
        match r {
            Some(dir) => user_dir(optional_text(named), optional_text(home), usual@) == Some(dir@),
            None => user_dir(optional_text(named), optional_text(home), usual@) is None,
        },
{
    match named {
        Some(dir) => {
            let chars = chars_of(dir);
            if chars.len() > 0 && chars[0] == '/' {
                return Some(chars);
            }
        },
        None => {},
    }
    match home {
        Some(home) => Some(join_path(&chars_of(home), usual)),
        None => None,
    }
}

/// Where a file of the app's configuration is, under the configuration
/// directory.
pub open spec fn config_file(
    xdg: Option<Seq<char>>,
    home: Option<Seq<char>>,
    name: Seq<char>,
) -> Option<Seq<char>> {
    match user_dir(xdg, home, ".config"@) {
        Some(base) => Some(path_join(path_join(base, "gifkino"@), name)),
        None => None,
    }
}

pub fn config_path(xdg: Option<&str>, home: Option<&str>, name: &str) -> (r: Option<String>)
    ensures
        match r {
            Some(path) => config_file(optional_text(xdg), optional_text(home), name@) == Some(path@),
            None => config_file(optional_text(xdg), optional_text(home), name@) is None,
        },
{
    match user_directory(xdg, home, ".config") {
        Some(base) => Some(text_of(&join_path(&join_path(&base, "gifkino"), name))),
        None => None,
    }
}

/// Where the settings are, from the environment's configuration directory and
/// the home directory.
pub fn path(xdg: Option<&str>, home: Option<&str>) -> (r: Option<String>)
    ensures
        match r {
            Some(path) => config_file(optional_text(xdg), optional_text(home), "settings.conf"@)
                == Some(path@),
            None => config_file(optional_text(xdg), optional_text(home), "settings.conf"@) is None,
        },
{
    config_path(xdg, home, "settings.conf")
}

} // verus!
