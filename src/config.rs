//! Process-wide tunables, resolved once at startup from the environment and
//! passed by reference to every component.
use vstd::prelude::*;

verus! {

/// Limits and timeouts of the service. Cooldowns are in milliseconds.
#[derive(Debug)]
pub struct Config {
    pub steam_appid: u64,
    pub max_user_structs_saved_per_scene: i64,
    pub max_requested_structs: i64,
    pub post_structure_rate_limit_ms: u64,
    pub get_structure_rate_limit_ms: u64,
    pub post_like_rate_limit_ms: u64,
    pub default_random_limit: i64,
    pub max_scene_length: usize,
    pub database_url: String,
    pub server_port: u16,
    pub skip_steam_ticket_validation: bool,
}

/// The sample size used when a request names none.
pub fn default_limit(cfg: &Config) -> (r: i64)
    ensures
        r == cfg.default_random_limit,
{
    cfg.default_random_limit
}

/// Whether `c` is an ASCII decimal digit.
pub open spec fn is_digit(c: char) -> bool {
    '0' <= c <= '9'
}

/// Whether every character of `s` is a decimal digit.
pub open spec fn all_digits(s: Seq<char>) -> bool {
    forall|i: int| 0 <= i < s.len() ==> is_digit(#[trigger] s[i])
}

/// The number that a string of decimal digits denotes.
pub open spec fn digits_value(s: Seq<char>) -> int
    decreases s.len(),
{
    if s.len() == 0 {
        0
    } else {
        digits_value(s.drop_last()) * 10 + (s.last() as int - '0' as int)
    }
}

/// The digits of `s` from position `from` on, if there is at least one and
/// nothing else follows.
pub open spec fn digits_from(s: Seq<char>, from: int) -> Option<int> {
    let body = s.subrange(from, s.len() as int);
    if body.len() > 0 && all_digits(body) {
        Some(digits_value(body))
    } else {
        None
    }
}

/// An unsigned decimal number, as `str::parse` reads one: an optional `+`,
/// then one or more digits, nothing else.
pub open spec fn unsigned_value(s: Seq<char>) -> Option<int> {
    if s.len() > 0 && s[0] == '+' {
        digits_from(s, 1)
    } else {
        digits_from(s, 0)
    }
}

/// A signed decimal number: an optional `+` or `-`, then one or more digits.
pub open spec fn signed_value(s: Seq<char>) -> Option<int> {
    if s.len() > 0 && s[0] == '-' {
        match digits_from(s, 1) {
            Some(v) => Some(-v),
            None => None,
        }
    } else {
        unsigned_value(s)
    }
}

/// `v`, if it lies in `[lo, hi]`.
pub open spec fn within(v: Option<int>, lo: int, hi: int) -> Option<int> {
    match v {
        Some(x) => if lo <= x <= hi {
            Some(x)
        } else {
            None
        },
        None => None,
    }
}

/// A string of digits denotes at least what any of its prefixes denotes.
proof fn lemma_digits_value_prefix(s: Seq<char>, k: int)
    requires
        all_digits(s),
        0 <= k <= s.len(),
    ensures
        0 <= digits_value(s.subrange(0, k)) <= digits_value(s),
    decreases s.len(),
{
    if k < s.len() {
        assert(all_digits(s.drop_last()));
        lemma_digits_value_prefix(s.drop_last(), k);
        assert(s.drop_last().subrange(0, k) =~= s.subrange(0, k));
        assert(is_digit(s[s.len() - 1]));
    } else {
        assert(s.subrange(0, k) =~= s);
        if s.len() > 0 {
            assert(all_digits(s.drop_last()));
            lemma_digits_value_prefix(s.drop_last(), k - 1);
            assert(s.drop_last().subrange(0, k - 1) =~= s.drop_last());
            assert(is_digit(s[s.len() - 1]));
        }
    }
}

/// Reads the digits of `s` from position `from` on as a number no larger
/// than `max`.
fn digits_at_most(s: &str, from: usize, max: u64) -> (r: Option<u64>)
    requires
        from <= s@.len(),
    ensures
        match r {
            Some(v) => within(digits_from(s@, from as int), 0, max as int) == Some(v as int),
            None => within(digits_from(s@, from as int), 0, max as int) is None,
        },
{
    let n = s.unicode_len();
    if from >= n {
        return None;
    }
    let ghost body = s@.subrange(from as int, n as int);
    let mut acc: u64 = 0;
    let mut i: usize = from;
    while i < n
        invariant
            n == s@.len(),
            from <= i <= n,
            body == s@.subrange(from as int, n as int),
            all_digits(body.subrange(0, i - from)),
            acc as int == digits_value(body.subrange(0, i - from)),
            acc <= max,
        decreases n - i,
    {
        let c = s.get_char(i);
        assert(body[i - from] == c);
        if c < '0' || c > '9' {
            return None;
        }
        let d: u64 = (c as u32 - '0' as u32) as u64;
        let ghost next = body.subrange(0, i - from + 1);
        assert(next.drop_last() =~= body.subrange(0, i - from));
        assert(next.last() == c);
        if d > max || acc > (max - d) / 10 {
            proof {
                assert(acc * 10 + d > max) by (nonlinear_arith)
                    requires
                        d > max || acc > (max - d) / 10,
                        d <= max ==> (max - d) / 10 * 10 <= max - d,
                ;
                if all_digits(body) {
                    lemma_digits_value_prefix(body, i - from + 1);
                }
            }
            return None;
        }
        proof {
            assert(acc * 10 + d <= max) by (nonlinear_arith)
                requires
                    acc <= (max - d) / 10,
                    d <= max,
                    (max - d) / 10 * 10 <= max - d,
            ;
        }
        acc = acc * 10 + d;
        i = i + 1;
    }
    assert(body.subrange(0, n - from) =~= body);
    Some(acc)
}

/// Digits never denote a negative number.
proof fn lemma_digits_nonneg(s: Seq<char>, from: int)
    requires
        0 <= from <= s.len(),
    ensures
        digits_from(s, from) matches Some(v) ==> v >= 0,
{
    let body = s.subrange(from, s.len() as int);
    if body.len() > 0 && all_digits(body) {
        lemma_digits_value_prefix(body, 0);
    }
}

/// Reads an unsigned decimal number no larger than `max`.
pub fn parse_unsigned(s: &str, max: u64) -> (r: Option<u64>)
    ensures
        match r {
            Some(v) => within(unsigned_value(s@), 0, max as int) == Some(v as int),
            None => within(unsigned_value(s@), 0, max as int) is None,
        },
{
    let n = s.unicode_len();
    if n > 0 && s.get_char(0) == '+' {
        digits_at_most(s, 1, max)
    } else {
        digits_at_most(s, 0, max)
    }
}

/// Reads a signed decimal number that fits in an `i64`.
pub fn parse_i64(s: &str) -> (r: Option<i64>)
    ensures
        match r {
            Some(v) => within(signed_value(s@), i64::MIN as int, i64::MAX as int) == Some(v as int),
            None => within(signed_value(s@), i64::MIN as int, i64::MAX as int) is None,
        },
{
    let n = s.unicode_len();
    proof {
        lemma_digits_nonneg(s@, 0);
        if n > 0 {
            lemma_digits_nonneg(s@, 1);
        }
    }
    if n > 0 && s.get_char(0) == '-' {
        match digits_at_most(s, 1, 0x8000_0000_0000_0000u64) {
            Some(m) => if m == 0x8000_0000_0000_0000u64 {
                Some(i64::MIN)
            } else {
                Some(-(m as i64))
            },
            None => None,
        }
    } else {
        match parse_unsigned(s, i64::MAX as u64) {
            Some(v) => Some(v as i64),
            None => None,
        }
    }
}

/// Reads `true` or `false`.
pub fn parse_bool(s: &str) -> (r: Option<bool>)
    ensures
        r == (if s@ == "true"@ {
            Some(true)
        } else if s@ == "false"@ {
            Some(false)
        } else {
            None::<bool>
        }),
{
    let t = s.to_owned();
    if t == "true".to_owned() {
        Some(true)
    } else if t == "false".to_owned() {
        Some(false)
    } else {
        None
    }
}

/// The value of the first entry named `key`.
pub open spec fn env_lookup(vars: Seq<(String, String)>, key: Seq<char>) -> Option<Seq<char>>
    decreases vars.len(),
{
    if vars.len() == 0 {
        None
    } else if vars[0].0@ == key {
        Some(vars[0].1@)
    } else {
        env_lookup(vars.drop_first(), key)
    }
}

/// Looks up the first entry named `key`.
pub fn lookup(vars: &Vec<(String, String)>, key: &str) -> (r: Option<String>)
    ensures
        match r {
            Some(v) => env_lookup(vars@, key@) == Some(v@),
            None => env_lookup(vars@, key@) is None,
        },
{
    let wanted = key.to_owned();
    let mut i: usize = 0;
    assert(vars@.subrange(0, vars@.len() as int) =~= vars@);
    while i < vars.len()
        invariant
            i <= vars@.len(),
            wanted@ == key@,
            env_lookup(vars@, key@) == env_lookup(vars@.subrange(i as int, vars@.len() as int), key@),
        decreases vars@.len() - i,
    {
        let ghost rest = vars@.subrange(i as int, vars@.len() as int);
        assert(rest.drop_first() =~= vars@.subrange(i + 1, vars@.len() as int));
        assert(rest[0] == vars@[i as int]);
        if vars[i].0 == wanted {
            return Some(vars[i].1.clone());
        }
        i = i + 1;
    }
    None
}

/// A setting read with `read`, or `default` when absent or unreadable.
pub open spec fn setting_or(
    value: Option<Seq<char>>,
    read: spec_fn(Seq<char>) -> Option<int>,
    default: int,
) -> int {
    match value {
        Some(text) => match read(text) {
            Some(v) => v,
            None => default,
        },
        None => default,
    }
}

/// An unsigned setting, or `default`.
pub open spec fn u64_setting(vars: Seq<(String, String)>, key: Seq<char>, default: u64) -> int {
    setting_or(
        env_lookup(vars, key),
        |t: Seq<char>| within(unsigned_value(t), 0, u64::MAX as int),
        default as int,
    )
}

/// A signed setting, or `default`.
pub open spec fn i64_setting(vars: Seq<(String, String)>, key: Seq<char>, default: i64) -> int {
    setting_or(
        env_lookup(vars, key),
        |t: Seq<char>| within(signed_value(t), i64::MIN as int, i64::MAX as int),
        default as int,
    )
}

/// Milliseconds in a cooldown given in seconds, saturating.
pub open spec fn seconds_to_ms(secs: int) -> int {
    if secs * 1000 > u64::MAX {
        u64::MAX as int
    } else {
        secs * 1000
    }
}

/// Reads an unsigned setting, or `default`.
fn u64_or(vars: &Vec<(String, String)>, key: &str, default: u64) -> (r: u64)
    ensures
        r == u64_setting(vars@, key@, default),
{
    match lookup(vars, key) {
        Some(text) => match parse_unsigned(text.as_str(), u64::MAX) {
            Some(v) => v,
            None => default,
        },
        None => default,
    }
}

/// Reads a signed setting, or `default`.
fn i64_or(vars: &Vec<(String, String)>, key: &str, default: i64) -> (r: i64)
    ensures
        r == i64_setting(vars@, key@, default),
{
    match lookup(vars, key) {
        Some(text) => match parse_i64(text.as_str()) {
            Some(v) => v,
            None => default,
        },
        None => default,
    }
}

/// Reads a cooldown given in seconds, as milliseconds.
fn cooldown_ms(vars: &Vec<(String, String)>, key: &str, default_secs: u64) -> (r: u64)
    ensures
        r == seconds_to_ms(u64_setting(vars@, key@, default_secs)),
{
    let secs = u64_or(vars, key, default_secs);
    if secs > u64::MAX / 1000 {
        u64::MAX
    } else {
        secs * 1000
    }
}

impl Config {
    /// Resolves the configuration from environment entries (name, value);
    /// a setting that is absent or does not read as its type takes its default.
    pub fn from_env(vars: &Vec<(String, String)>) -> (r: Config)
        ensures
            r.steam_appid == u64_setting(vars@, "STEAM_APPID"@, 3527290),
            r.max_user_structs_saved_per_scene == i64_setting(
                vars@,
                "MAX_USER_STRUCTS_SAVED_PER_SCENE"@,
                100,
            ),
            r.max_requested_structs == i64_setting(vars@, "MAX_REQUESTED_STRUCTS"@, 400),
            r.post_structure_rate_limit_ms == seconds_to_ms(
                u64_setting(vars@, "POST_STRUCTURE_RATE_LIMIT"@, 2),
            ),
            r.get_structure_rate_limit_ms == seconds_to_ms(
                u64_setting(vars@, "GET_STRUCTURE_RATE_LIMIT"@, 6),
            ),
            r.post_like_rate_limit_ms == seconds_to_ms(u64_setting(vars@, "POST_LIKE_RATE_LIMIT"@, 1)),
            r.default_random_limit == i64_setting(vars@, "DEFAULT_RANDOM_LIMIT"@, 40),
            r.max_scene_length == setting_or(
                env_lookup(vars@, "MAX_SCENE_LENGTH"@),
                |t: Seq<char>| within(unsigned_value(t), 0, usize::MAX as int),
                50,
            ),
            r.server_port == setting_or(
                env_lookup(vars@, "SERVER_PORT"@),
                |t: Seq<char>| within(unsigned_value(t), 0, u16::MAX as int),
                3000,
            ),
            r.database_url@ == (match env_lookup(vars@, "DATABASE_URL"@) {
                Some(url) => url,
                None => "sqlite://peakstranding.db?mode=rwc"@,
            }),
            r.skip_steam_ticket_validation == (match env_lookup(vars@, "SKIP_STEAM_TICKET_VALIDATION"@) {
                Some(t) => t == "true"@,
                None => false,
            }),
    {
        let max_scene_length: usize = match lookup(vars, "MAX_SCENE_LENGTH") {
            Some(text) => match parse_unsigned(text.as_str(), usize::MAX as u64) {
                Some(v) => v as usize,
                None => 50,
            },
            None => 50,
        };
        let server_port: u16 = match lookup(vars, "SERVER_PORT") {
            Some(text) => match parse_unsigned(text.as_str(), u16::MAX as u64) {
                Some(v) => v as u16,
                None => 3000,
            },
            None => 3000,
        };
        let database_url = match lookup(vars, "DATABASE_URL") {
            Some(url) => url,
            None => "sqlite://peakstranding.db?mode=rwc".to_owned(),
        };
        let skip = match lookup(vars, "SKIP_STEAM_TICKET_VALIDATION") {
            Some(text) => match parse_bool(text.as_str()) {
                Some(b) => b,
                None => false,
            },
            None => false,
        };
        Config {
            steam_appid: u64_or(vars, "STEAM_APPID", 3527290),
            max_user_structs_saved_per_scene: i64_or(vars, "MAX_USER_STRUCTS_SAVED_PER_SCENE", 100),
            max_requested_structs: i64_or(vars, "MAX_REQUESTED_STRUCTS", 400),
            post_structure_rate_limit_ms: cooldown_ms(vars, "POST_STRUCTURE_RATE_LIMIT", 2),
            get_structure_rate_limit_ms: cooldown_ms(vars, "GET_STRUCTURE_RATE_LIMIT", 6),
            post_like_rate_limit_ms: cooldown_ms(vars, "POST_LIKE_RATE_LIMIT", 1),
            default_random_limit: i64_or(vars, "DEFAULT_RANDOM_LIMIT", 40),
            max_scene_length,
            database_url,
            server_port,
            skip_steam_ticket_validation: skip,
        }
    }
}

} // verus!
