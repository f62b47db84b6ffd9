//! Application configuration: the directory the storage file lives in,
//! persisted as a small JSON object. Reading and writing the
//! configuration file is the caller's job; this module owns the format
//! and the path derivations.

use vstd::prelude::*;

use crate::error::AppError;
use crate::json::{
    spec_emit_string, spec_parse_string, spec_skip_ws, emit_string_into, parse_string, skip_ws,
};
use crate::strutil::{chars_to_string, str_eq, str_to_chars};

verus! {

/// The single key of the configuration object.
pub open spec fn storage_dir_key_chars() -> Seq<char> {
    seq!['s', 't', 'o', 'r', 'a', 'g', 'e', '_', 'd', 'i', 'r']
}

/// The directory value that stands for "next to the program".
pub open spec fn default_dir_chars() -> Seq<char> {
    seq!['.']
}

/// The fixed log file name.
pub open spec fn log_filename_chars() -> Seq<char> {
    seq!['t', 'o', 't', 'p', '_', 'a', 'p', 'p', '.', 'l', 'o', 'g']
}

/// The fixed storage file name.
pub open spec fn storage_filename_chars() -> Seq<char> {
    seq!['a', 'c', 'c', 'o', 'u', 'n', 't', 's', '.', 'j', 's', 'o', 'n']
}

/// Parses a configuration text: an object holding exactly the
/// `storage_dir` string member, with nothing but whitespace around it.
pub open spec fn spec_parse_config(s: Seq<char>) -> Option<Seq<char>> {
    let r = spec_skip_ws(s);
    if r.len() == 0 || r[0] != '{' {
        None
    } else {
        let r1 = spec_skip_ws(r.skip(1));
        match spec_parse_string(r1) {
            None => None,
            Some(k) => {
                if k.0 != storage_dir_key_chars() {
                    None
                } else {
                    let r2 = spec_skip_ws(k.1);
                    if r2.len() == 0 || r2[0] != ':' {
                        None
                    } else {
                        let r3 = spec_skip_ws(r2.skip(1));
                        match spec_parse_string(r3) {
                            None => None,
                            Some(v) => {
                                let r4 = spec_skip_ws(v.1);
                                if r4.len() == 0 || r4[0] != '}' {
                                    None
                                } else if spec_skip_ws(r4.skip(1)).len() == 0 {
                                    Some(v.0)
                                } else {
                                    None
                                }
                            },
                        }
                    }
                }
            },
        }
    }
}

/// The text written for a configuration.
pub open spec fn spec_emit_config(dir: Seq<char>) -> Seq<char> {
    seq!['{', '\n', ' ', ' '] + spec_emit_string(storage_dir_key_chars()) + seq![':', ' ']
        + spec_emit_string(dir) + seq!['\n', '}']
}

/// Application configuration: where the storage file lives.
#[derive(Debug)]
pub struct Config {
    /// Directory path for the storage file.
    pub storage_dir: String,
}

impl Default for Config {
    /// The default configuration keeps files next to the program.
    fn default() -> (r: Config)
        ensures
            r.storage_dir@ == default_dir_chars(),
    {
        proof {
            reveal_strlit(".");
        }
        let r = Config { storage_dir: ".".to_owned() };
        proof {
            assert(r.storage_dir@ =~= default_dir_chars());
        }
        r
    }
}

impl Config {
    /// Builds a configuration from what the configuration file holds: the
    /// default when the file is absent or empty, its parsed directory
    /// otherwise, and a parse error when the text is not in the expected
    /// format.
    pub fn from_json(contents: Option<&str>) -> (r: Result<Config, AppError>)
        ensures
            (match contents {
                None => r matches Ok(c) && c.storage_dir@ == default_dir_chars(),
                Some(text) => {
                    if text@.len() == 0 {
                        r matches Ok(c) && c.storage_dir@ == default_dir_chars()
                    } else {
                        match spec_parse_config(text@) {
                            Some(d) => r matches Ok(c) && c.storage_dir@ == d,
                            None => r matches Err(e) && e is ParseError,
                        }
                    }
                },
            }),
    {
        let text = match contents {
            None => {
                return Ok(Config::default());
            },
            Some(t) => t,
        };
        if text.is_empty() {
            return Ok(Config::default());
        }
        let cs = str_to_chars(text);
        proof {
            assert(cs@.skip(0) =~= cs@);
        }
        let j0 = skip_ws(&cs, 0);
        if j0 == cs.len() {
            return Err(Config::parse_error());
        }
        proof {
            assert(cs@.skip(j0 as int)[0] == cs@[j0 as int]);
        }
        if cs[j0] != '{' {
            return Err(Config::parse_error());
        }
        proof {
            assert(cs@.skip(j0 as int).skip(1) =~= cs@.skip(j0 as int + 1));
        }
        let j1 = skip_ws(&cs, j0 + 1);
        let k = match parse_string(&cs, j1) {
            None => {
                return Err(Config::parse_error());
            },
            Some(k) => k,
        };
        let key_ok = k.0.len() == 11 && k.0[0] == 's' && k.0[1] == 't' && k.0[2] == 'o' && k.0[3]
            == 'r' && k.0[4] == 'a' && k.0[5] == 'g' && k.0[6] == 'e' && k.0[7] == '_' && k.0[8]
            == 'd' && k.0[9] == 'i' && k.0[10] == 'r';
        proof {
            if key_ok {
                assert(k.0@ =~= storage_dir_key_chars());
            } else if k.0@ == storage_dir_key_chars() {
                assert(k.0@.len() == 11);
                assert(k.0@[0] == 's' && k.0@[1] == 't' && k.0@[2] == 'o' && k.0@[3] == 'r'
                    && k.0@[4] == 'a' && k.0@[5] == 'g' && k.0@[6] == 'e' && k.0@[7] == '_'
                    && k.0@[8] == 'd' && k.0@[9] == 'i' && k.0@[10] == 'r');
            }
        }
        if !key_ok {
            return Err(Config::parse_error());
        }
        let j2 = skip_ws(&cs, k.1);
        if j2 == cs.len() {
            return Err(Config::parse_error());
        }
        proof {
            assert(cs@.skip(j2 as int)[0] == cs@[j2 as int]);
        }
        if cs[j2] != ':' {
            return Err(Config::parse_error());
        }
        proof {
            assert(cs@.skip(j2 as int).skip(1) =~= cs@.skip(j2 as int + 1));
        }
        let j3 = skip_ws(&cs, j2 + 1);
        let v = match parse_string(&cs, j3) {
            None => {
                return Err(Config::parse_error());
            },
            Some(v) => v,
        };
        let j4 = skip_ws(&cs, v.1);
        if j4 == cs.len() {
            return Err(Config::parse_error());
        }
        proof {
            assert(cs@.skip(j4 as int)[0] == cs@[j4 as int]);
        }
        if cs[j4] != '}' {
            return Err(Config::parse_error());
        }
        proof {
            assert(cs@.skip(j4 as int).skip(1) =~= cs@.skip(j4 as int + 1));
        }
        let j5 = skip_ws(&cs, j4 + 1);
        if j5 != cs.len() {
            return Err(Config::parse_error());
        }
        Ok(Config { storage_dir: chars_to_string(&v.0) })
    }

    /// The error reported for an unreadable configuration text.
    fn parse_error() -> (r: AppError)
        ensures
            r is ParseError,
    {
        AppError::ParseError("configuration text is not in the expected format".to_owned())
    }

    /// The exact text to persist for this configuration.
    pub fn to_json(&self) -> (r: String)
        ensures
            r@ == spec_emit_config(self.storage_dir@),
    {
        let mut out: Vec<char> = Vec::new();
        out.push('{');
        out.push('\n');
        out.push(' ');
        out.push(' ');
        proof {
            assert(out@ =~= seq!['{', '\n', ' ', ' ']);
        }
        let ghost g0 = out@;
        let key = str_to_chars("storage_dir");
        proof {
            reveal_strlit("storage_dir");
            assert(key@ =~= storage_dir_key_chars());
        }
        emit_string_into(&mut out, &key);
        out.push(':');
        out.push(' ');
        let ghost g1 = out@;
        proof {
            assert(g1 =~= g0 + spec_emit_string(storage_dir_key_chars()) + seq![':', ' ']);
        }
        let dir = str_to_chars(self.storage_dir.as_str());
        emit_string_into(&mut out, &dir);
        out.push('\n');
        out.push('}');
        proof {
            assert(out@ =~= spec_emit_config(self.storage_dir@));
        }
        chars_to_string(&out)
    }

    /// Whether the configuration still has its default values.
    pub fn is_using_defaults(&self) -> (r: bool)
        ensures
            r == (self.storage_dir@ == default_dir_chars()),
    {
        proof {
            reveal_strlit(".");
            assert("."@ =~= default_dir_chars());
        }
        str_eq(self.storage_dir.as_str(), ".")
    }

    /// The log file path, always next to the configuration file.
    pub fn get_log_file_path(&self) -> (r: String)
        ensures
            r@ == log_filename_chars(),
    {
        proof {
            reveal_strlit("totp_app.log");
            assert("totp_app.log"@ =~= log_filename_chars());
        }
        "totp_app.log".to_owned()
    }

    /// The storage file path: the fixed file name, under the configured
    /// directory when one is set.
    pub fn get_storage_file_path(&self) -> (r: String)
        ensures
            r@ == if self.storage_dir@ == default_dir_chars() {
                storage_filename_chars()
            } else {
                self.storage_dir@ + seq!['/'] + storage_filename_chars()
            },
    {
        proof {
            reveal_strlit("accounts.json");
            reveal_strlit("/");
            assert("accounts.json"@ =~= storage_filename_chars());
            assert("/"@ =~= seq!['/']);
        }
        if self.is_using_defaults() {
            "accounts.json".to_owned()
        } else {
            let mut r = self.storage_dir.clone();
            r.append("/");
            r.append("accounts.json");
            r
        }
    }

    /// Validates the configured paths: an empty directory path is
    /// rejected, anything else is kept as it is. Whether the path names
    /// an existing file rather than a directory is for the caller to
    /// check against the file system.
    pub fn validate_paths(&mut self) -> (r: Result<(), AppError>)
        ensures
            final(self).storage_dir@ == old(self).storage_dir@,
            old(self).storage_dir@.len() == 0 ==> (r matches Err(e) && e is InvalidInput),
            old(self).storage_dir@.len() > 0 ==> r is Ok,
    {
        if self.storage_dir.as_str().is_empty() {
            Err(AppError::InvalidInput("directory path cannot be empty".to_owned()))
        } else {
            Ok(())
        }
    }
}

} // verus!
