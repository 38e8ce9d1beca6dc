//! How a probe reaches its backend. A missing credential is an error, not a skip: a check
//! that passes without having run is worse than none.

use vstd::prelude::*;

use crate::search::compile::{blank, is_blank};
use crate::text::{has_prefix, opt_text, quoted, quoted_text, same_text, starts_with};
use crate::trim::{trim, trimmed, CharClass};

verus! {

/// An environment: variables and their values, each name once.
pub type Environment = Vec<(String, String)>;

/// The value of a variable at or after `from`.
pub open spec fn variable(env: Seq<(String, String)>, name: Seq<char>, from: int) -> Option<
    Seq<char>,
>
    decreases env.len() - from,
{
    if 0 <= from < env.len() {
        if env[from].0@ == name {
            Some(env[from].1@)
        } else {
            variable(env, name, from + 1)
        }
    } else {
        None
    }
}

/// The value of a variable, where it has one that is not blank.
pub open spec fn setting(env: Seq<(String, String)>, name: Seq<char>) -> Option<Seq<char>> {
    match variable(env, name, 0) {
        Some(value) => if blank(value) {
            None
        } else {
            Some(value)
        },
        None => None,
    }
}

/// The value of the first of two variables that has one that is not blank.
pub open spec fn either(env: Seq<(String, String)>, first: Seq<char>, second: Seq<char>) -> Option<
    Seq<char>,
> {
    match setting(env, first) {
        Some(value) => Some(value),
        None => setting(env, second),
    }
}

/// The value of a variable, where it has one that is not blank.
pub fn find_setting(env: &Environment, name: &str) -> (value: Option<String>)
    ensures
        opt_text(value) == setting(env@, name@),
{
    let mut i: usize = 0;
    while i < env.len()
        invariant
            i <= env@.len(),
            variable(env@, name@, 0) == variable(env@, name@, i as int),
        decreases env@.len() - i,
    {
        if same_text(env[i].0.as_str(), name) {
            if is_blank(env[i].1.as_str()) {
                return None;
            }
            return Some(env[i].1.clone());
        }
        i += 1;
    }
    None
}

/// What is said of a setting that is missing.
pub open spec fn missing(what: Seq<char>, first: Seq<char>, second: Seq<char>) -> Seq<char> {
    "missing "@ + what + "; set one of ["@ + quoted(first) + ", "@ + quoted(second)
        + "] (a probe that cannot reach the backend must fail, not skip)"@
}

/// The value of the first of two variables that has one; it must be there.
fn require(env: &Environment, first: &str, second: &str, what: &str) -> (value: Result<
    String,
    String,
>)
    ensures
        match value {
            Ok(v) => either(env@, first@, second@) == Some(v@),
            Err(why) => either(env@, first@, second@) is None && why@ == missing(
                what@,
                first@,
                second@,
            ),
        },
{
    if let Some(value) = find_setting(env, first) {
        return Ok(value);
    }
    if let Some(value) = find_setting(env, second) {
        return Ok(value);
    }
    let mut why: String = "missing ".to_owned();
    why.append(what);
    why.append("; set one of [");
    why.append(quoted_text(first).as_str());
    why.append(", ");
    why.append(quoted_text(second).as_str());
    why.append("] (a probe that cannot reach the backend must fail, not skip)");
    Err(why)
}

/// How an S3-compatible backend is reached.
#[derive(Debug)]
pub struct S3Config {
    /// URL of the endpoint.
    pub endpoint: String,
    /// Bucket.
    pub bucket: String,
    /// Region.
    pub region: String,
    /// Access key id.
    pub access_key_id: String,
    /// Secret access key.
    pub secret_access_key: String,
    /// Whether the bucket stands in the path of a request.
    pub force_path_style: bool,
    /// Prefix of every object that a probe writes.
    pub prefix: String,
}

/// What an `S3Config` says.
pub struct S3ConfigView {
    pub endpoint: Seq<char>,
    pub bucket: Seq<char>,
    pub region: Seq<char>,
    pub access_key_id: Seq<char>,
    pub secret_access_key: Seq<char>,
    pub force_path_style: bool,
    pub prefix: Seq<char>,
}

impl View for S3Config {
    type V = S3ConfigView;

    open spec fn view(&self) -> S3ConfigView {
        S3ConfigView {
            endpoint: self.endpoint@,
            bucket: self.bucket@,
            region: self.region@,
            access_key_id: self.access_key_id@,
            secret_access_key: self.secret_access_key@,
            force_path_style: self.force_path_style,
            prefix: self.prefix@,
        }
    }
}

/// A setting, or what stands for it.
pub open spec fn setting_or(env: Seq<(String, String)>, name: Seq<char>, other: Seq<char>) -> Seq<
    char,
> {
    match setting(env, name) {
        Some(value) => value,
        None => other,
    }
}

/// Whether path-style requests are wanted: unless they are switched off.
pub open spec fn path_style(env: Seq<(String, String)>) -> bool {
    match setting(env, "QM_S3_FORCE_PATH_STYLE"@) {
        Some(value) => value != "0"@ && value != "false"@ && value != "no"@,
        None => true,
    }
}

/// The configuration that an environment describes, or what it lacks first.
pub open spec fn configured(env: Seq<(String, String)>) -> Result<S3ConfigView, Seq<char>> {
    let endpoint = either(env, "QM_S3_ENDPOINT"@, "R2_ENDPOINT"@);
    let bucket = either(env, "QM_S3_BUCKET"@, "R2_BUCKET"@);
    let key = either(env, "QM_S3_ACCESS_KEY_ID"@, "R2_ACCESS_KEY_ID"@);
    let secret = either(env, "QM_S3_SECRET_ACCESS_KEY"@, "R2_SECRET_ACCESS_KEY"@);
    if endpoint is None {
        Err(missing("S3 endpoint"@, "QM_S3_ENDPOINT"@, "R2_ENDPOINT"@))
    } else if bucket is None {
        Err(missing("bucket name"@, "QM_S3_BUCKET"@, "R2_BUCKET"@))
    } else if key is None {
        Err(missing("access key id"@, "QM_S3_ACCESS_KEY_ID"@, "R2_ACCESS_KEY_ID"@))
    } else if secret is None {
        Err(missing("secret access key"@, "QM_S3_SECRET_ACCESS_KEY"@, "R2_SECRET_ACCESS_KEY"@))
    } else {
        Ok(
            S3ConfigView {
                endpoint: endpoint->0,
                bucket: bucket->0,
                region: setting_or(env, "QM_S3_REGION"@, "auto"@),
                access_key_id: key->0,
                secret_access_key: secret->0,
                force_path_style: path_style(env),
                prefix: setting_or(env, "QM_S3_PREFIX"@, "qm-probe"@),
            },
        )
    }
}

impl S3Config {
    /// The configuration that an environment describes.
    pub fn from_env(env: &Environment) -> (config: Result<Self, String>)
        ensures
            match config {
                Ok(c) => configured(env@) == Ok::<S3ConfigView, Seq<char>>(c@),
                Err(why) => configured(env@) == Err::<S3ConfigView, Seq<char>>(why@),
            },
    {
        let endpoint: String = match require(env, "QM_S3_ENDPOINT", "R2_ENDPOINT", "S3 endpoint") {
            Ok(value) => value,
            Err(why) => {
                return Err(why);
            },
        };
        let bucket: String = match require(env, "QM_S3_BUCKET", "R2_BUCKET", "bucket name") {
            Ok(value) => value,
            Err(why) => {
                return Err(why);
            },
        };
        let access_key_id: String = match require(
            env,
            "QM_S3_ACCESS_KEY_ID",
            "R2_ACCESS_KEY_ID",
            "access key id",
        ) {
            Ok(value) => value,
            Err(why) => {
                return Err(why);
            },
        };
        let secret_access_key: String = match require(
            env,
            "QM_S3_SECRET_ACCESS_KEY",
            "R2_SECRET_ACCESS_KEY",
            "secret access key",
        ) {
            Ok(value) => value,
            Err(why) => {
                return Err(why);
            },
        };
        let region: String = match find_setting(env, "QM_S3_REGION") {
            Some(value) => value,
            None => "auto".to_owned(),
        };
        let force_path_style: bool = match find_setting(env, "QM_S3_FORCE_PATH_STYLE") {
            Some(value) => !(same_text(value.as_str(), "0") || same_text(value.as_str(), "false")
                || same_text(value.as_str(), "no")),
            None => true,
        };
        let prefix: String = match find_setting(env, "QM_S3_PREFIX") {
            Some(value) => value,
            None => "qm-probe".to_owned(),
        };
        Ok(
            S3Config {
                endpoint,
                bucket,
                region,
                access_key_id,
                secret_access_key,
                force_path_style,
                prefix,
            },
        )
    }

    /// Whether the endpoint is reached without encryption; it must be a URL.
    pub fn plain_http(&self) -> (plain: Result<bool, String>)
        ensures
            match plain {
                Ok(p) => has_prefix(self.endpoint@, "http"@) && p == has_prefix(
                    self.endpoint@,
                    "http://"@,
                ),
                Err(why) => !has_prefix(self.endpoint@, "http"@) && why@
                    == "endpoint must be an http(s) URL, got "@ + quoted(self.endpoint@),
            },
    {
        if !starts_with(self.endpoint.as_str(), "http") {
            let mut why: String = "endpoint must be an http(s) URL, got ".to_owned();
            why.append(quoted_text(self.endpoint.as_str()).as_str());
            return Err(why);
        }
        Ok(starts_with(self.endpoint.as_str(), "http://"))
    }

    /// Where the files of an index live, given their place below the prefix.
    pub fn split_prefix(&self, relative: &Option<String>) -> (prefix: Result<String, String>)
        ensures
            match (prefix, *relative) {
                (Ok(p), Some(r)) => p@ == trimmed(self.prefix@, CharClass::Char('/')) + "/"@
                    + trimmed(r@, CharClass::Char('/')),
                (Err(why), None) => why@ == "--split-prefix is required for build and query"@,
                _ => false,
            },
    {
        match relative {
            Some(r) => {
                let mut prefix: String = trim(self.prefix.as_str(), CharClass::Char('/'));
                prefix.append("/");
                prefix.append(trim(r.as_str(), CharClass::Char('/')).as_str());
                Ok(prefix)
            },
            None => Err("--split-prefix is required for build and query".to_owned()),
        }
    }

    /// The key of the object that the check of conditional writes uses.
    pub fn probe_key(&self, suffix: &str) -> (key: String)
        ensures
            key@ == trimmed(self.prefix@, CharClass::Char('/')) + "/cas-probe-"@ + suffix@,
    {
        let mut key: String = trim(self.prefix.as_str(), CharClass::Char('/'));
        key.append("/cas-probe-");
        key.append(suffix);
        key
    }
}

} // verus!
