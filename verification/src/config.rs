use vstd::prelude::*;

verus! {

/// The settings of a run: where the database lives and whether output is
/// colored.
pub struct Config {
    pub db_path: String,
    pub color: bool,
}

/// The escape sequences that color the output; all empty when color is
/// off.
#[derive(Clone, Debug)]
pub struct Colors {
    pub reset: String,
    pub red: String,
    pub green: String,
    pub yellow: String,
}

/// The mathematical value of [`Colors`].
pub struct ColorsView {
    pub reset: Seq<char>,
    pub red: Seq<char>,
    pub green: Seq<char>,
    pub yellow: Seq<char>,
}

impl View for Colors {
    type V = ColorsView;

    open spec fn view(&self) -> ColorsView {
        ColorsView { reset: self.reset@, red: self.red@, green: self.green@, yellow: self.yellow@ }
    }
}

/// The database path used when none is configured.
pub open spec fn default_db_path() -> Seq<char> {
    "bioctl.db"@
}

/// The ANSI escape sequences for reset, red, green and yellow.
pub open spec fn ansi_colors() -> ColorsView {
    ColorsView {
        reset: "\x1b[0m"@,
        red: "\x1b[31m"@,
        green: "\x1b[32m"@,
        yellow: "\x1b[33m"@,
    }
}

/// No escape sequences at all.
pub open spec fn no_colors() -> ColorsView {
    ColorsView { reset: Seq::empty(), red: Seq::empty(), green: Seq::empty(), yellow: Seq::empty() }
}

impl Config {
    /// The configuration from the environment's values: the database path
    /// set in `BIOCTL_DB_PATH` (`bioctl.db` when it is unset), and color
    /// unless `NO_COLOR` is set.
    pub fn from_env(db_path_var: Option<String>, no_color_set: bool) -> (res: Config)
        ensures
            res.db_path@ == (match db_path_var {
                Some(p) => p@,
                None => default_db_path(),
            }),
            res.color == !no_color_set,
    {
        let db_path = match db_path_var {
            Some(p) => p,
            None => String::from_str("bioctl.db"),
        };
        Config { db_path, color: !no_color_set }
    }

    /// The escape sequences to color output with: ANSI colors when color is
    /// on, empty texts when it is off.
    pub fn colors(&self) -> (res: Colors)
        ensures
            self.color ==> res@ == ansi_colors(),
            !self.color ==> res@ == no_colors(),
    {
        if self.color {
            Colors {
                reset: String::from_str("\x1b[0m"),
                red: String::from_str("\x1b[31m"),
                green: String::from_str("\x1b[32m"),
                yellow: String::from_str("\x1b[33m"),
            }
        } else {
            let res = Colors {
                reset: String::new(),
                red: String::new(),
                green: String::new(),
                yellow: String::new(),
            };
            assert(res@ == no_colors());
            res
        }
    }
}

} // verus!
