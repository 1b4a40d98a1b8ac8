//! The configuration values the coordinator consumes, and how the raw strings
//! found in the configuration file are interpreted.

use vstd::prelude::*;
use vstd::string::StrSliceExecFns;
use vstd::string::StringExecFns;

verus! {

/// How many concurrently running copies of the application are allowed.
#[derive(Clone, Copy, Debug, PartialEq, Eq, Structural)]
pub enum InstancePolicy {
    /// Any number of copies may run; new windows cascade instead of stacking.
    Unlimited,
    /// The copy started first wins: a new launch defers to it and exits.
    First,
    /// The copy started last wins: a new launch supersedes the older ones.
    Last,
}

/// Which color scheme the embedded web view should be asked to prefer.
#[derive(Clone, Copy, Debug, PartialEq, Eq, Structural)]
pub enum ColorScheme {
    Dark,
    Light,
    /// No override; the operating system's preference decides.
    SystemDefault,
}

/// The code point of `c`, with ASCII uppercase letters folded to lowercase.
pub open spec fn lower_code(c: char) -> int {
    if 'A' as u32 <= c as u32 && c as u32 <= 'Z' as u32 {
        c as u32 + 32
    } else {
        c as u32 as int
    }
}

/// Character sequences equal up to ASCII case.
pub open spec fn chars_ci_eq(a: Seq<char>, b: Seq<char>) -> bool {
    a.len() == b.len() && forall|i: int|
        0 <= i < a.len() ==> #[trigger] lower_code(a[i]) == lower_code(b[i])
}

/// The instance policy a raw configuration value stands for: `"first"` and
/// `"last"` (compared without regard to ASCII case) select their policy, and
/// every other value, the empty string included, allows unlimited copies.
pub open spec fn spec_instance_policy(s: Seq<char>) -> InstancePolicy {
    if chars_ci_eq(s, seq!['f', 'i', 'r', 's', 't']) {
        InstancePolicy::First
    } else if chars_ci_eq(s, seq!['l', 'a', 's', 't']) {
        InstancePolicy::Last
    } else {
        InstancePolicy::Unlimited
    }
}

/// Whether a raw configuration value switches a feature on: exactly the value
/// `"on"`, compared without regard to ASCII case.
pub open spec fn spec_is_on(s: Seq<char>) -> bool {
    chars_ci_eq(s, seq!['o', 'n'])
}

/// The color scheme a raw configuration value asks for: `"dark"` or `"light"`
/// (compared without regard to ASCII case); anything else leaves the choice
/// to the operating system.
pub open spec fn spec_color_scheme(s: Seq<char>) -> ColorScheme {
    if chars_ci_eq(s, seq!['d', 'a', 'r', 'k']) {
        ColorScheme::Dark
    } else if chars_ci_eq(s, seq!['l', 'i', 'g', 'h', 't']) {
        ColorScheme::Light
    } else {
        ColorScheme::SystemDefault
    }
}

fn char_ci_eq(a: char, b: char) -> (r: bool)
    ensures
        r == (lower_code(a) == lower_code(b)),
{
    let au: u32 = a as u32;
    let bu: u32 = b as u32;
    let la: u32 = if 65 <= au && au <= 90 {
        au + 32
    } else {
        au
    };
    let lb: u32 = if 65 <= bu && bu <= 90 {
        bu + 32
    } else {
        bu
    };
    la == lb
}

/// String equality up to ASCII case, over the characters of the two strings.
pub fn str_ci_eq(a: &str, b: &str) -> (r: bool)
    ensures
        r == chars_ci_eq(a@, b@),
{
    let an: usize = a.unicode_len();
    let bn: usize = b.unicode_len();
    if an != bn {
        return false;
    }
    for i in 0..an
        invariant
            an == a@.len(),
            an == b@.len(),
            forall|j: int| 0 <= j < i ==> #[trigger] lower_code(a@[j]) == lower_code(b@[j]),
    {
        if !char_ci_eq(a.get_char(i), b.get_char(i)) {
            return false;
        }
    }
    true
}

/// The configuration record the shell is driven by. Every field arrives as
/// the raw string found in the configuration file; the methods below say what
/// the strings mean to the coordinator. How the file is located, read and
/// decoded is the embedding application's business.
#[derive(Clone, Debug)]
pub struct AppConfig {
    /// The address the single page is loaded from.
    pub url: String,
    /// A fixed window title; empty means the page's own title is used.
    pub title: String,
    /// A path to a window icon; empty means the default icon.
    pub icon: String,
    /// `"dark"` or `"light"` to override the preferred color scheme.
    pub prefer_dark_mode: String,
    /// `"on"` to force-render all pages in dark mode.
    pub force_dark_mode: String,
    /// `"on"` to start the window minimized.
    pub start_minimized: String,
    /// `"first"` or `"last"` to keep a single running copy; anything else
    /// allows unlimited copies.
    pub single_instance: String,
}

impl AppConfig {
    /// The instance policy configured by `single_instance`.
    pub fn instance_mode(&self) -> (r: InstancePolicy)
        ensures
            r == spec_instance_policy(self.single_instance@),
    {
        proof {
            reveal_strlit("first");
            reveal_strlit("last");
        }
        if str_ci_eq(self.single_instance.as_str(), "first") {
            InstancePolicy::First
        } else if str_ci_eq(self.single_instance.as_str(), "last") {
            InstancePolicy::Last
        } else {
            InstancePolicy::Unlimited
        }
    }

    /// Whether every page should be force-rendered in dark mode.
    pub fn force_dark_enabled(&self) -> (r: bool)
        ensures
            r == spec_is_on(self.force_dark_mode@),
    {
        proof {
            reveal_strlit("on");
        }
        str_ci_eq(self.force_dark_mode.as_str(), "on")
    }

    /// Whether the window should start minimized.
    pub fn start_minimized_enabled(&self) -> (r: bool)
        ensures
            r == spec_is_on(self.start_minimized@),
    {
        proof {
            reveal_strlit("on");
        }
        str_ci_eq(self.start_minimized.as_str(), "on")
    }

    /// The color scheme override configured by `prefer_dark_mode`.
    pub fn color_scheme(&self) -> (r: ColorScheme)
        ensures
            r == spec_color_scheme(self.prefer_dark_mode@),
    {
        proof {
            reveal_strlit("dark");
            reveal_strlit("light");
        }
        if str_ci_eq(self.prefer_dark_mode.as_str(), "dark") {
            ColorScheme::Dark
        } else if str_ci_eq(self.prefer_dark_mode.as_str(), "light") {
            ColorScheme::Light
        } else {
            ColorScheme::SystemDefault
        }
    }

    /// Whether a fixed window title is configured, so the page's own title
    /// should not be synced into the caption.
    pub fn has_static_title(&self) -> (r: bool)
        ensures
            r == (self.title@.len() != 0),
    {
        !self.title.as_str().is_empty()
    }

    /// The name of the configuration file for an executable called `stem`:
    /// `<stem>.json`, so `MyApp.exe` reads `MyApp.json`.
    pub fn config_file_name(stem: &str) -> (r: String)
        ensures
            r@ == stem@ + ".json"@,
    {
        let mut out: String = String::from_str(stem);
        out.append(".json");
        out
    }

    /// The name of the geometry file for an executable called `stem`:
    /// `<stem>.window.json`, beside the configuration file.
    pub fn window_state_file_name(stem: &str) -> (r: String)
        ensures
            r@ == stem@ + ".window.json"@,
    {
        let mut out: String = String::from_str(stem);
        out.append(".window.json");
        out
    }
}

} // verus!
