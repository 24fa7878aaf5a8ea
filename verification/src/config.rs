//! Configuration, from command-line arguments and environment variables.
use crate::keyorder::{compare_keys, KeyOrder};
use vstd::prelude::*;

verus! {

/// Settings of a run.
#[derive(Debug, Clone)]
pub struct Config {
    /// Directory to process mtimes of. Set with `CARGO_MTIME_ROOT` environment variable.
    pub root_dir: String,
    /// Max open files. Set with `CARGO_MTIME_MAX_OPEN_FILES` environment variable. Default is `768`.
    pub max_open_files: usize,
    /// Cache config. Set with `CARGO_MTIME_CACHE_TYPE`. Default is `disk`.
    pub cache_config: CacheConfig,
}

/// Which cache backs the mtime records.
#[derive(Debug, Clone, Copy, PartialEq, Eq, Structural)]
pub enum CacheType {
    Disk,
    Redis,
}

/// The settings of the chosen cache.
#[derive(Debug, Clone)]
pub enum CacheConfig {
    Disk(DiskConfig),
    Redis(RedisConfig),
}

/// Settings of the on-disk cache.
#[derive(Debug, Clone)]
pub struct DiskConfig {
    /// Path to database. Set with `CARGO_MTIME_DB_PATH`.
    pub db_path: String,
}

/// Settings of the Redis cache.
#[derive(Debug, Clone)]
pub struct RedisConfig {
    /// URL to Redis. Set with `CARGO_MTIME_REDIS_URL`, defaults to localhost.
    pub url: String,
}

/// Why no configuration could be made.
#[derive(Debug, Clone, Copy, PartialEq, Eq, Structural)]
pub enum ConfigError {
    /// Neither the first argument nor `CARGO_MTIME_ROOT` gives the root directory.
    MissingRootDir,
    /// The disk cache is chosen, but neither the second argument nor
    /// `CARGO_MTIME_DB_PATH` gives the database path.
    MissingDbPath,
    /// `CARGO_MTIME_MAX_OPEN_FILES` is not a decimal `usize`.
    InvalidMaxOpenFiles,
}

/// The Redis URL used when `CARGO_MTIME_REDIS_URL` is not set.
pub open spec fn default_redis_url() -> Seq<char> {
    "redis://127.0.0.1/"@
}

/// The file limit used when `CARGO_MTIME_MAX_OPEN_FILES` is not set.
pub open spec fn default_max_open_files() -> Seq<char> {
    "768"@
}

/// Whether `c` is an ASCII decimal digit.
pub open spec fn is_digit(c: char) -> bool {
    '0' <= c && c <= '9'
}

/// Whether every character of `s` is an ASCII decimal digit.
pub open spec fn all_digits(s: Seq<char>) -> bool {
    forall|i: int| 0 <= i < s.len() ==> is_digit(#[trigger] s[i])
}

/// The value of a string of decimal digits.
pub open spec fn digits_value(s: Seq<char>) -> nat
    decreases s.len(),
{
    if s.len() == 0 {
        0
    } else {
        digits_value(s.drop_last()) * 10 + ((s.last() as nat) - ('0' as nat)) as nat
    }
}

/// What `str::parse::<usize>` gives: an optional `+`, then one or more decimal
/// digits whose value fits in a `usize`.
pub open spec fn spec_parse_usize(s: Seq<char>) -> Option<usize> {
    let d = if s.len() > 0 && s[0] == '+' {
        s.drop_first()
    } else {
        s
    };
    if d.len() > 0 && all_digits(d) && digits_value(d) <= usize::MAX {
        Some(digits_value(d) as usize)
    } else {
        None
    }
}

/// The cache type that a value of `CARGO_MTIME_CACHE_TYPE` selects.
pub open spec fn spec_cache_type(env_cache_type: Option<Seq<char>>) -> CacheType {
    match env_cache_type {
        Some(t) => if t == "redis"@ {
            CacheType::Redis
        } else {
            CacheType::Disk
        },
        None => CacheType::Disk,
    }
}

/// The view of an optional string.
pub open spec fn opt_view(s: Option<String>) -> Option<Seq<char>> {
    match s {
        Some(s) => Some(s@),
        None => None,
    }
}

/// The `i`-th argument if there is one, else the environment value.
pub open spec fn arg_or_env(args: Seq<String>, i: int, env: Option<String>) -> Option<Seq<char>> {
    if i < args.len() {
        Some(args[i]@)
    } else {
        opt_view(env)
    }
}

proof fn lemma_digits_value_grows(s: Seq<char>, i: int)
    requires
        0 <= i <= s.len(),
        all_digits(s),
    ensures
        digits_value(s.take(i)) <= digits_value(s),
    decreases s.len() - i,
{
    if i < s.len() {
        lemma_digits_value_grows(s, i + 1);
        assert(s.take(i + 1).drop_last() =~= s.take(i));
        assert(is_digit(s[i]));
    } else {
        assert(s.take(i) =~= s);
    }
}

/// Parses a decimal `usize` as `str::parse::<usize>` does.
pub fn parse_usize(s: &str) -> (r: Option<usize>)
    ensures
        r == spec_parse_usize(s@),
{
    if !s.is_ascii() {
        proof {
            assert(!vstd::utf8::is_ascii_chars(s@));
            assert(exists|j: int| 0 <= j < s@.len() && !('\0' <= #[trigger] s@[j] <= '\u{7f}'));
            let j = choose|j: int| 0 <= j < s@.len() && !('\0' <= #[trigger] s@[j] <= '\u{7f}');
            assert(!is_digit(s@[j]));
            let d = if s@.len() > 0 && s@[0] == '+' { s@.drop_first() } else { s@ };
            if d.len() > 0 && all_digits(d) {
                if s@.len() > 0 && s@[0] == '+' {
                    assert(j != 0);
                    assert(d[j - 1] == s@[j]);
                    assert(is_digit(d[j - 1]));
                } else {
                    assert(d[j] == s@[j]);
                    assert(is_digit(d[j]));
                }
            }
        }
        return None;
    }
    let bytes = s.as_bytes();
    proof {
        vstd::string::is_ascii_spec_bytes(s);
    }
    let n = bytes.len();
    let mut start: usize = 0;
    if n > 0 && bytes[0] == 43u8 {
        start = 1;
    }
    let ghost d = if s@.len() > 0 && s@[0] == '+' { s@.drop_first() } else { s@ };
    assert(d =~= s@.skip(start as int));
    if start >= n {
        return None;
    }
    let mut value: usize = 0;
    let mut i: usize = start;
    while i < n
        invariant
            n == s@.len(),
            forall|k: int| 0 <= k < s@.len() ==> '\0' <= #[trigger] s@[k] <= '\u{7f}',
            bytes@ == Seq::new(s@.len(), |k: int| s@[k] as u8),
            start <= i <= n,
            d == s@.skip(start as int),
            d == (if s@.len() > 0 && s@[0] == '+' { s@.drop_first() } else { s@ }),
            forall|k: int| 0 <= k < i - start ==> is_digit(#[trigger] d[k]),
            value == digits_value(d.take(i - start)),
        decreases n - i,
    {
        let b = bytes[i];
        assert(b == s@[i as int] as u8);
        assert(d[i - start] == s@[i as int]);
        if b < 48u8 || b > 57u8 {
            proof {
                assert(!is_digit(d[i - start]));
                assert(!all_digits(d));
            }
            return None;
        }
        assert(is_digit(d[i - start]));
        let digit = (b - 48u8) as usize;
        assert(d.take(i - start + 1).drop_last() =~= d.take(i - start));
        assert(digit == (d[i - start] as nat) - ('0' as nat));
        assert(d.take(i - start + 1).last() == d[i - start]);
        assert(digits_value(d.take(i - start + 1)) == value * 10 + digit);
        match value.checked_mul(10) {
            Some(v10) => match v10.checked_add(digit) {
                Some(v) => {
                    value = v;
                },
                None => {
                    proof {
                        assert(digits_value(d.take(i - start + 1)) > usize::MAX);
                        if all_digits(d) {
                            lemma_digits_value_grows(d, i - start + 1);
                        }
                    }
                    return None;
                },
            },
            None => {
                proof {
                    if all_digits(d) {
                        lemma_digits_value_grows(d, i - start + 1);
                    }
                }
                return None;
            },
        }
        i = i + 1;
    }
    assert(d.take(n - start) =~= d);
    Some(value)
}

/// The Redis URL is `CARGO_MTIME_REDIS_URL`, or `redis://127.0.0.1/` when it is unset,
/// whatever the command-line arguments are: two argument lists with the same
/// environment choose the same cache, and, for Redis, the same URL.
pub proof fn lemma_redis_url_ignores_arguments(
    args1: Seq<String>,
    args2: Seq<String>,
    env_root: Option<String>,
    env_cache_type: Option<String>,
    env_db_path: Option<String>,
    env_redis_url: Option<String>,
    env_max_open_files: Option<String>,
)
    ensures
        ({
            let r1 = Config::spec_from_values(args1, env_root, env_cache_type, env_db_path, env_redis_url, env_max_open_files);
            let r2 = Config::spec_from_values(args2, env_root, env_cache_type, env_db_path, env_redis_url, env_max_open_files);
            r1 is Ok && r2 is Ok ==> r1->Ok_0.1 == r2->Ok_0.1 && (r1->Ok_0.1 == CacheType::Redis ==> r1->Ok_0.2
                == r2->Ok_0.2)
        }),
        ({
            let r1 = Config::spec_from_values(args1, env_root, env_cache_type, env_db_path, env_redis_url, env_max_open_files);
            r1 is Ok && r1->Ok_0.1 == CacheType::Redis ==> r1->Ok_0.2 == match env_redis_url {
                Some(u) => u@,
                None => "redis://127.0.0.1/"@,
            }
        }),
{
}

impl Config {
    /// The configuration that the given arguments and environment values select.
    pub open spec fn spec_from_values(
        args: Seq<String>,
        env_root: Option<String>,
        env_cache_type: Option<String>,
        env_db_path: Option<String>,
        env_redis_url: Option<String>,
        env_max_open_files: Option<String>,
    ) -> Result<(Seq<char>, CacheType, Seq<char>, usize), ConfigError> {
        let root = arg_or_env(args, 1, env_root);
        let cache_type = spec_cache_type(opt_view(env_cache_type));
        let db_path = arg_or_env(args, 2, env_db_path);
        let url = match env_redis_url {
            Some(u) => u@,
            None => default_redis_url(),
        };
        let max_files = match env_max_open_files {
            Some(m) => spec_parse_usize(m@),
            None => spec_parse_usize(default_max_open_files()),
        };
        if root is None {
            Err(ConfigError::MissingRootDir)
        } else if cache_type == CacheType::Disk && db_path is None {
            Err(ConfigError::MissingDbPath)
        } else if max_files is None {
            Err(ConfigError::InvalidMaxOpenFiles)
        } else {
            Ok(
                (
                    root.unwrap(),
                    cache_type,
                    if cache_type == CacheType::Disk {
                        db_path.unwrap()
                    } else {
                        url
                    },
                    max_files.unwrap(),
                ),
            )
        }
    }

    /// The root directory, cache type, cache location (database path or URL) and file limit.
    pub open spec fn summary(&self) -> (Seq<char>, CacheType, Seq<char>, usize) {
        (
            self.root_dir@,
            match self.cache_config {
                CacheConfig::Disk(_) => CacheType::Disk,
                CacheConfig::Redis(_) => CacheType::Redis,
            },
            match self.cache_config {
                CacheConfig::Disk(d) => d.db_path@,
                CacheConfig::Redis(r) => r.url@,
            },
            self.max_open_files,
        )
    }

    /// The cache type that a value of `CARGO_MTIME_CACHE_TYPE` selects: Redis for
    /// `redis`, the disk cache otherwise.
    pub fn cache_type_of(env_cache_type: &Option<String>) -> (t: CacheType)
        ensures
            t == spec_cache_type(opt_view(*env_cache_type)),
    {
        match env_cache_type {
            Some(t) => match compare_keys(t.as_str(), "redis") {
                KeyOrder::Equal => CacheType::Redis,
                _ => CacheType::Disk,
            },
            None => CacheType::Disk,
        }
    }

    /// The file limit that a value of `CARGO_MTIME_MAX_OPEN_FILES` gives, 768 when unset;
    /// `None` when the value is not a decimal `usize`.
    pub fn max_open_files_of(env_max_open_files: &Option<String>) -> (r: Option<usize>)
        ensures
            r == match *env_max_open_files {
                Some(m) => spec_parse_usize(m@),
                None => spec_parse_usize(default_max_open_files()),
            },
    {
        match env_max_open_files {
            Some(m) => parse_usize(m.as_str()),
            None => parse_usize("768"),
        }
    }

    /// Builds the configuration from the command-line arguments (`args[0]` being the
    /// program) and the values of the environment variables, each `None` when unset.
    ///
    /// The root directory is the first argument, else `CARGO_MTIME_ROOT`. The cache is
    /// Redis when `CARGO_MTIME_CACHE_TYPE` is `redis`, else the disk cache, whose
    /// database path is the second argument, else `CARGO_MTIME_DB_PATH`. The Redis URL
    /// is `CARGO_MTIME_REDIS_URL`, else `redis://127.0.0.1/`. The file limit is
    /// `CARGO_MTIME_MAX_OPEN_FILES`, else 768.
    ///
    /// The values must give a root directory, a database path when the disk cache is
    /// chosen, and a valid file limit; `try_from_values` tells when they do.
    pub fn from_values(
        args: &[String],
        env_root: Option<String>,
        env_cache_type: Option<String>,
        env_db_path: Option<String>,
        env_redis_url: Option<String>,
        env_max_open_files: Option<String>,
    ) -> (c: Config)
        requires
            Config::spec_from_values(
                args@,
                env_root,
                env_cache_type,
                env_db_path,
                env_redis_url,
                env_max_open_files,
            ) is Ok,
        ensures
            Config::spec_from_values(
                args@,
                env_root,
                env_cache_type,
                env_db_path,
                env_redis_url,
                env_max_open_files,
            ) == Ok::<(Seq<char>, CacheType, Seq<char>, usize), ConfigError>(c.summary()),
            c.cache_config matches CacheConfig::Redis(r) ==> r.url@ == match env_redis_url {
                Some(u) => u@,
                None => "redis://127.0.0.1/"@,
            },
    {
        let root_dir = if args.len() > 1 {
            args[1].clone()
        } else {
            match env_root {
                Some(r) => r,
                None => vstd::pervasive::unreached(),
            }
        };
        let cache_type = Config::cache_type_of(&env_cache_type);
        let cache_config = match cache_type {
            CacheType::Disk => {
                let db_path = if args.len() > 2 {
                    args[2].clone()
                } else {
                    match env_db_path {
                        Some(p) => p,
                        None => vstd::pervasive::unreached(),
                    }
                };
                CacheConfig::Disk(DiskConfig { db_path })
            },
            CacheType::Redis => {
                let url = match env_redis_url {
                    Some(u) => u,
                    None => "redis://127.0.0.1/".to_owned(),
                };
                CacheConfig::Redis(RedisConfig { url })
            },
        };
        let max_open_files = match Config::max_open_files_of(&env_max_open_files) {
            Some(m) => m,
            None => vstd::pervasive::unreached(),
        };
        Config { root_dir, max_open_files, cache_config }
    }

    /// Builds the configuration as `from_values` does, or tells what is missing or
    /// wrong: no root directory, no database path for the disk cache, or a file limit
    /// that is not a decimal `usize`, checked in that order.
    pub fn try_from_values(
        args: &[String],
        env_root: Option<String>,
        env_cache_type: Option<String>,
        env_db_path: Option<String>,
        env_redis_url: Option<String>,
        env_max_open_files: Option<String>,
    ) -> (r: Result<Config, ConfigError>)
        ensures
            match r {
                Ok(c) => Config::spec_from_values(
                    args@,
                    env_root,
                    env_cache_type,
                    env_db_path,
                    env_redis_url,
                    env_max_open_files,
                ) == Ok::<(Seq<char>, CacheType, Seq<char>, usize), ConfigError>(c.summary()),
                Err(e) => Config::spec_from_values(
                    args@,
                    env_root,
                    env_cache_type,
                    env_db_path,
                    env_redis_url,
                    env_max_open_files,
                ) == Err::<(Seq<char>, CacheType, Seq<char>, usize), ConfigError>(e),
            },
            match r {
                Ok(c) => c.cache_config matches CacheConfig::Redis(rc) ==> rc.url@ == match env_redis_url {
                    Some(u) => u@,
                    None => "redis://127.0.0.1/"@,
                },
                Err(_) => true,
            },
    {
        if args.len() <= 1 && env_root.is_none() {
            return Err(ConfigError::MissingRootDir);
        }
        let cache_type = Config::cache_type_of(&env_cache_type);
        if cache_type == CacheType::Disk && args.len() <= 2 && env_db_path.is_none() {
            return Err(ConfigError::MissingDbPath);
        }
        if Config::max_open_files_of(&env_max_open_files).is_none() {
            return Err(ConfigError::InvalidMaxOpenFiles);
        }
        Ok(
            Config::from_values(
                args,
                env_root,
                env_cache_type,
                env_db_path,
                env_redis_url,
                env_max_open_files,
            ),
        )
    }
}

} // verus!
