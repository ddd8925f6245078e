//! Application configuration read from `RUSTCHAIN_*` variables with
//! defaults, application errors, and log levels.

use vstd::prelude::*;
use crate::text::{chars_of, string_from_chars, trim_chars, split_chars, dec_u64, trim, pieces, is_digit, digit_val,
    dec_nat, upper_ascii, upper_chars, chars_eq_str};

verus! {

/// Application errors.
#[derive(Debug, Clone, PartialEq, Eq)]
pub enum AppError {
    /// A configuration value is missing or malformed.
    Config(String),
    /// An I/O operation failed.
    Io(String),
    /// Logging could not be set up.
    Logging(String),
    /// A command failed.
    Command(String),
}

/// The text of an application error.
pub open spec fn app_error_text(e: AppError) -> Seq<char> {
    match e {
        AppError::Config(s) => "配置错误: "@ + s@,
        AppError::Io(s) => "IO 错误: "@ + s@,
        AppError::Logging(s) => "日志初始化失败: "@ + s@,
        AppError::Command(s) => "命令执行失败: "@ + s@,
    }
}

impl AppError {
    /// The error as text.
    pub fn message(&self) -> (r: String)
        ensures
            r@ == app_error_text(*self),
    {
        let (prefix, s) = match self {
            AppError::Config(s) => ("配置错误: ", s),
            AppError::Io(s) => ("IO 错误: ", s),
            AppError::Logging(s) => ("日志初始化失败: ", s),
            AppError::Command(s) => ("命令执行失败: ", s),
        };
        let mut t = String::from_str(prefix);
        t.append(s.as_str());
        t
    }
}

/// Whether `e` is a configuration error with message `m`.
pub open spec fn is_config_error(e: AppError, m: Seq<char>) -> bool {
    match e {
        AppError::Config(s) => s@ == m,
        _ => false,
    }
}

/// Why a decimal integer did not parse.
#[derive(Debug, Clone, Copy, PartialEq, Eq)]
pub enum IntParseError {
    /// Nothing to parse.
    Empty,
    /// A character that is not a digit (or a sign alone).
    InvalidDigit,
    /// The value is above the type's maximum.
    PosOverflow,
}

/// The text of an integer parse error.
pub open spec fn int_error_text(e: IntParseError) -> Seq<char> {
    match e {
        IntParseError::Empty => "cannot parse integer from empty string"@,
        IntParseError::InvalidDigit => "invalid digit found in string"@,
        IntParseError::PosOverflow => "number too large to fit in target type"@,
    }
}

impl IntParseError {
    /// The error as text.
    pub fn message(&self) -> (r: String)
        ensures
            r@ == int_error_text(*self),
    {
        match self {
            IntParseError::Empty => String::from_str("cannot parse integer from empty string"),
            IntParseError::InvalidDigit => String::from_str("invalid digit found in string"),
            IntParseError::PosOverflow => String::from_str("number too large to fit in target type"),
        }
    }
}

/// Reads digits of `b` from position `i` on, `acc` being the value so far:
/// the first non-digit or the first step above `max` stops it.
pub open spec fn scan_uint(b: Seq<char>, max: int, i: int, acc: int) -> Result<int, IntParseError>
    decreases b.len() - i,
{
    if i >= b.len() || i < 0 {
        Ok(acc)
    } else if !is_digit(b[i]) {
        Err(IntParseError::InvalidDigit)
    } else if acc * 10 + digit_val(b[i]) > max {
        Err(IntParseError::PosOverflow)
    } else {
        scan_uint(b, max, i + 1, acc * 10 + digit_val(b[i]))
    }
}

/// A scan that starts within the bound stays within it.
pub proof fn lemma_scan_uint_bound(b: Seq<char>, max: int, i: int, acc: int)
    requires
        0 <= acc <= max,
    ensures
        scan_uint(b, max, i, acc) matches Ok(x) ==> 0 <= x <= max,
    decreases b.len() - i,
{
    if 0 <= i < b.len() && is_digit(b[i]) && acc * 10 + digit_val(b[i]) <= max {
        assert(acc * 10 + digit_val(b[i]) >= 0) by (nonlinear_arith)
            requires
                acc >= 0,
                is_digit(b[i]),
                digit_val(b[i]) == (b[i] as u32) - 48;
        lemma_scan_uint_bound(b, max, i + 1, acc * 10 + digit_val(b[i]));
    }
}

/// A parsed value lies within the bound.
pub proof fn lemma_parse_uint_bound(s: Seq<char>, max: int)
    requires
        max >= 0,
    ensures
        parse_uint_spec(s, max) matches Ok(x) ==> 0 <= x <= max,
{
    lemma_scan_uint_bound(s, max, 0, 0);
    if s.len() > 0 {
        lemma_scan_uint_bound(s.drop_first(), max, 0, 0);
    }
}

/// Parsing an unsigned decimal integer whose type's maximum is `max`: an
/// optional `+`, then digits.
pub open spec fn parse_uint_spec(s: Seq<char>, max: int) -> Result<int, IntParseError> {
    if s.len() == 0 {
        Err(IntParseError::Empty)
    } else if s[0] == '+' {
        if s.len() == 1 { Err(IntParseError::InvalidDigit) } else { scan_uint(s.drop_first(), max, 0, 0) }
    } else {
        scan_uint(s, max, 0, 0)
    }
}

/// Parses an unsigned decimal integer not above `max`.
pub fn parse_uint(s: &str, max: u64) -> (r: Result<u64, IntParseError>)
    ensures
        match parse_uint_spec(s@, max as int) {
            Ok(v) => r == Ok::<u64, IntParseError>(v as u64),
            Err(e) => r == Err::<u64, IntParseError>(e),
        },
        r is Ok ==> r->Ok_0 <= max,
{
    let v = chars_of(s);
    if v.len() == 0 {
        return Err(IntParseError::Empty);
    }
    let mut i: usize = 0;
    let ghost mut b = s@;
    if v[0] == '+' {
        if v.len() == 1 {
            return Err(IntParseError::InvalidDigit);
        }
        i = 1;
        proof { b = s@.drop_first(); }
    }
    let ghost off = i as int;
    let mut acc: u64 = 0;
    proof {
        assert forall|k: int| 0 <= k < b.len() implies b[k] == v@[k + off] by {}
    }
    while i < v.len()
        invariant
            off <= i <= v@.len(),
            off == 0 || off == 1,
            b.len() == v@.len() - off,
            forall|k: int| 0 <= k < b.len() ==> b[k] == #[trigger] v@[k + off],
            acc <= max,
            parse_uint_spec(s@, max as int) == scan_uint(b, max as int, i - off, acc as int),
        decreases v.len() - i,
    {
        let c = v[i];
        proof { assert(b[i - off] == v@[(i - off) + off]); }
        if !('0' <= c && c <= '9') {
            return Err(IntParseError::InvalidDigit);
        }
        let d = (c as u32 - 48) as u64;
        if d > max || acc > (max - d) / 10 {
            proof {
                assert(acc * 10 + d > max) by (nonlinear_arith)
                    requires
                        d > max || acc > (max - d) / 10,
                        d <= 9,
                        acc >= 0;
            }
            return Err(IntParseError::PosOverflow);
        }
        proof {
            assert(acc * 10 + d <= max) by (nonlinear_arith)
                requires
                    acc <= (max - d) / 10,
                    d <= max;
        }
        acc = acc * 10 + d;
        i = i + 1;
    }
    Ok(acc)
}

/// Values of the `RUSTCHAIN_*` variables, as found (`None` when unset).
#[derive(Debug, Clone, Default)]
pub struct EnvVars {
    /// `RUSTCHAIN_LOG_LEVEL`.
    pub log_level: Option<String>,
    /// `RUSTCHAIN_API_HOST`.
    pub api_host: Option<String>,
    /// `RUSTCHAIN_API_PORT`.
    pub api_port: Option<String>,
    /// `RUSTCHAIN_P2P_BIND_ADDR`.
    pub p2p_bind_addr: Option<String>,
    /// `RUSTCHAIN_SEED_NODES`.
    pub seed_nodes: Option<String>,
    /// `RUSTCHAIN_DATA_DIR`.
    pub data_dir: Option<String>,
    /// `RUSTCHAIN_MINING_DIFFICULTY`.
    pub mining_difficulty: Option<String>,
    /// `RUSTCHAIN_MINING_REWARD`.
    pub mining_reward: Option<String>,
}

/// Application configuration.
#[derive(Debug, Clone)]
pub struct AppConfig {
    /// Service name, for logs and diagnostics.
    pub app_name: String,
    /// Log level.
    pub log_level: String,
    /// Host the REST API binds.
    pub api_host: String,
    /// Port the REST API binds.
    pub api_port: u16,
    /// Address the P2P node binds.
    pub p2p_bind_addr: String,
    /// Initial seed nodes.
    pub seed_nodes: Vec<String>,
    /// Chain data directory.
    pub data_dir: String,
    /// Mining difficulty.
    pub mining_difficulty: u32,
    /// Mining reward.
    pub mining_reward: u64,
}

/// A configuration, viewed.
pub struct ConfigV {
    pub app_name: Seq<char>,
    pub log_level: Seq<char>,
    pub api_host: Seq<char>,
    pub api_port: u16,
    pub p2p_bind_addr: Seq<char>,
    pub seed_nodes: Seq<Seq<char>>,
    pub data_dir: Seq<char>,
    pub mining_difficulty: u32,
    pub mining_reward: u64,
}

impl View for AppConfig {
    type V = ConfigV;

    open spec fn view(&self) -> ConfigV {
        ConfigV {
            app_name: self.app_name@,
            log_level: self.log_level@,
            api_host: self.api_host@,
            api_port: self.api_port,
            p2p_bind_addr: self.p2p_bind_addr@,
            seed_nodes: self.seed_nodes@.map_values(|s: String| s@),
            data_dir: self.data_dir@,
            mining_difficulty: self.mining_difficulty,
            mining_reward: self.mining_reward,
        }
    }
}

/// A variable's value, or the default when unset.
pub open spec fn or_default(v: Option<String>, default: Seq<char>) -> Seq<char> {
    match v {
        Some(s) => s@,
        None => default,
    }
}

/// The error for a variable that does not parse.
pub open spec fn parse_failure(key: Seq<char>, e: IntParseError) -> Seq<char> {
    key + " 解析失败: "@ + int_error_text(e)
}

/// A numeric variable: the default when unset, else its parsed value.
pub open spec fn numeric(v: Option<String>, key: Seq<char>, max: int, default: int) -> Result<int, Seq<char>> {
    match v {
        None => Ok(default),
        Some(s) => match parse_uint_spec(s@, max) {
            Ok(x) => Ok(x),
            Err(e) => Err(parse_failure(key, e)),
        },
    }
}

/// The non-empty trimmed pieces of a list of seed nodes.
pub open spec fn kept_seeds(ps: Seq<Seq<char>>) -> Seq<Seq<char>>
    decreases ps.len(),
{
    if ps.len() == 0 {
        Seq::empty()
    } else {
        let t = trim(ps.last());
        if t.len() == 0 { kept_seeds(ps.drop_last()) } else { kept_seeds(ps.drop_last()).push(t) }
    }
}

/// The seed nodes of a comma-separated list (none when unset).
pub open spec fn seed_list(v: Option<String>) -> Seq<Seq<char>> {
    kept_seeds(pieces(or_default(v, Seq::empty()), ','))
}

/// The configuration the variables give, or the message of the first
/// numeric variable (port, difficulty, reward, in that order) that fails.
pub open spec fn config_spec(app_name: Seq<char>, env: EnvVars) -> Result<ConfigV, Seq<char>> {
    match numeric(env.api_port, "RUSTCHAIN_API_PORT"@, u16::MAX as int, 8080) {
        Err(m) => Err(m),
        Ok(port) => match numeric(env.mining_difficulty, "RUSTCHAIN_MINING_DIFFICULTY"@, u32::MAX as int, 2) {
            Err(m) => Err(m),
            Ok(difficulty) => match numeric(env.mining_reward, "RUSTCHAIN_MINING_REWARD"@, u64::MAX as int, 50) {
                Err(m) => Err(m),
                Ok(reward) => Ok(ConfigV {
                    app_name,
                    log_level: or_default(env.log_level, "info"@),
                    api_host: or_default(env.api_host, "127.0.0.1"@),
                    api_port: port as u16,
                    p2p_bind_addr: or_default(env.p2p_bind_addr, "0.0.0.0:7000"@),
                    seed_nodes: seed_list(env.seed_nodes),
                    data_dir: or_default(env.data_dir, "./data"@),
                    mining_difficulty: difficulty as u32,
                    mining_reward: reward as u64,
                }),
            },
        },
    }
}

/// A variable's value, or the default.
fn env_or_default(v: &Option<String>, default: &str) -> (r: String)
    ensures
        r@ == or_default(*v, default@),
{
    match v {
        Some(s) => s.clone(),
        None => String::from_str(default),
    }
}

/// Parses a numeric variable, the default when it is unset.
fn parse_env_or_default(v: &Option<String>, key: &str, max: u64, default: u64) -> (r: Result<u64, AppError>)
    requires
        default <= max,
    ensures
        match numeric(*v, key@, max as int, default as int) {
            Ok(x) => 0 <= x <= max && r == Ok::<u64, AppError>(x as u64),
            Err(m) => r is Err && is_config_error(r->Err_0, m),
        },
        r is Ok ==> r->Ok_0 <= max,
{
    proof {
        match v {
            Some(s) => { lemma_parse_uint_bound(s@, max as int); },
            None => {},
        }
    }
    match v {
        None => Ok(default),
        Some(s) => match parse_uint(s.as_str(), max) {
            Ok(x) => Ok(x),
            Err(e) => {
                let mut m = String::from_str(key);
                m.append(" 解析失败: ");
                let t = e.message();
                m.append(t.as_str());
                Err(AppError::Config(m))
            },
        },
    }
}

/// Parses a comma-separated list of seed nodes, dropping blank entries.
fn parse_seed_nodes(v: &Option<String>) -> (r: Vec<String>)
    ensures
        r@.map_values(|s: String| s@) == seed_list(*v),
{
    let raw = env_or_default(v, "");
    proof {
        reveal_strlit("");
        assert(""@ =~= Seq::<char>::empty());
        assert(raw@ == or_default(*v, Seq::empty()));
    }
    let chars = chars_of(raw.as_str());
    let parts = split_chars(chars.as_slice(), ',');
    let ghost ps = parts@.map_values(|p: Vec<char>| p@);
    let mut out: Vec<String> = Vec::new();
    let mut i: usize = 0;
    proof { assert(ps.subrange(0, 0) =~= Seq::<Seq<char>>::empty()); }
    while i < parts.len()
        invariant
            i <= parts@.len(),
            ps == parts@.map_values(|p: Vec<char>| p@),
            out@.map_values(|s: String| s@) == kept_seeds(ps.subrange(0, i as int)),
        decreases parts.len() - i,
    {
        let t = trim_chars(parts[i].as_slice());
        proof {
            assert(ps.subrange(0, i + 1).drop_last() =~= ps.subrange(0, i as int));
            assert(ps.subrange(0, i + 1).last() == parts@[i as int]@);
        }
        if t.len() > 0 {
            let ghost before = out@.map_values(|s: String| s@);
            out.push(string_from_chars(t.as_slice()));
            proof { assert(out@.map_values(|s: String| s@) =~= before.push(t@)); }
        }
        i = i + 1;
    }
    proof { assert(ps.subrange(0, parts@.len() as int) =~= ps); }
    out
}

impl AppConfig {
    /// The configuration for `app_name` from the variables' values, with
    /// defaults for those unset; a numeric value that does not parse is a
    /// configuration error.
    pub fn from_env(app_name: &str, env: &EnvVars) -> (r: Result<AppConfig, AppError>)
        ensures
            match config_spec(app_name@, *env) {
                Ok(c) => r is Ok && r->Ok_0@ == c,
                Err(m) => r is Err && is_config_error(r->Err_0, m),
            },
    {
        let log_level = env_or_default(&env.log_level, "info");
        let api_host = env_or_default(&env.api_host, "127.0.0.1");
        let api_port = match parse_env_or_default(&env.api_port, "RUSTCHAIN_API_PORT", 65535, 8080) {
            Ok(x) => x as u16,
            Err(e) => { return Err(e); },
        };
        let p2p_bind_addr = env_or_default(&env.p2p_bind_addr, "0.0.0.0:7000");
        let seed_nodes = parse_seed_nodes(&env.seed_nodes);
        let data_dir = env_or_default(&env.data_dir, "./data");
        let mining_difficulty = match parse_env_or_default(&env.mining_difficulty, "RUSTCHAIN_MINING_DIFFICULTY", 4294967295, 2) {
            Ok(x) => x as u32,
            Err(e) => { return Err(e); },
        };
        let mining_reward = match parse_env_or_default(&env.mining_reward, "RUSTCHAIN_MINING_REWARD", 18446744073709551615, 50) {
            Ok(x) => x,
            Err(e) => { return Err(e); },
        };
        Ok(AppConfig {
            app_name: String::from_str(app_name),
            log_level,
            api_host,
            api_port,
            p2p_bind_addr,
            seed_nodes,
            data_dir,
            mining_difficulty,
            mining_reward,
        })
    }

    /// The REST API's listen address, `host:port`.
    pub fn api_listen_addr(&self) -> (r: String)
        ensures
            r@ == self.api_host@ + ":"@ + dec_nat(self.api_port as nat),
    {
        let mut s = self.api_host.clone();
        s.append(":");
        let p = dec_u64(self.api_port as u64);
        s.append(p.as_str());
        s
    }
}

/// Log levels.
#[derive(Debug, Clone, Copy, PartialEq, Eq, Structural)]
pub enum LogLevel {
    Trace,
    Debug,
    Info,
    Warn,
    Error,
}

/// The log level a name stands for, whatever its ASCII case.
pub open spec fn level_of(name: Seq<char>) -> Option<LogLevel> {
    let n = upper_ascii(name);
    if n == "TRACE"@ {
        Some(LogLevel::Trace)
    } else if n == "DEBUG"@ {
        Some(LogLevel::Debug)
    } else if n == "INFO"@ {
        Some(LogLevel::Info)
    } else if n == "WARN"@ || n == "WARNING"@ {
        Some(LogLevel::Warn)
    } else if n == "ERROR"@ {
        Some(LogLevel::Error)
    } else {
        None
    }
}

/// Parses a log level name, whatever its ASCII case.
pub fn parse_level(level: &str) -> (r: Result<LogLevel, AppError>)
    ensures
        match level_of(level@) {
            Some(l) => r == Ok::<LogLevel, AppError>(l),
            None => r is Err && is_config_error(r->Err_0, "不支持的日志级别: "@ + lower_ascii(level@)),
        },
{
    let v = chars_of(level);
    let up = upper_chars(v.as_slice());
    if chars_eq_str(up.as_slice(), "TRACE") {
        Ok(LogLevel::Trace)
    } else if chars_eq_str(up.as_slice(), "DEBUG") {
        Ok(LogLevel::Debug)
    } else if chars_eq_str(up.as_slice(), "INFO") {
        Ok(LogLevel::Info)
    } else if chars_eq_str(up.as_slice(), "WARN") || chars_eq_str(up.as_slice(), "WARNING") {
        Ok(LogLevel::Warn)
    } else if chars_eq_str(up.as_slice(), "ERROR") {
        Ok(LogLevel::Error)
    } else {
        let low = lower_chars(v.as_slice());
        let mut m = String::from_str("不支持的日志级别: ");
        let t = string_from_chars(low.as_slice());
        m.append(t.as_str());
        Err(AppError::Config(m))
    }
}

/// ASCII lower case of a character.
pub open spec fn lower_char(c: char) -> char {
    if 'A' <= c && c <= 'Z' { ((c as u32) + 32) as char } else { c }
}

/// ASCII lower case of a string.
pub open spec fn lower_ascii(s: Seq<char>) -> Seq<char> {
    s.map_values(|c: char| lower_char(c))
}

/// ASCII lower case of characters.
pub fn lower_chars(v: &[char]) -> (r: Vec<char>)
    ensures
        r@ == lower_ascii(v@),
{
    let mut out: Vec<char> = Vec::new();
    let mut i: usize = 0;
    while i < v.len()
        invariant
            i <= v@.len(),
            out@ == lower_ascii(v@.subrange(0, i as int)),
        decreases v.len() - i,
    {
        let c = v[i];
        let l = if 'A' <= c && c <= 'Z' { lower_ascii_letter(c) } else { c };
        out.push(l);
        proof { assert(out@ =~= lower_ascii(v@.subrange(0, i + 1))); }
        i = i + 1;
    }
    proof { assert(v@.subrange(0, v@.len() as int) =~= v@); }
    out
}

/// The lower-case letter of an upper-case ASCII letter.
fn lower_ascii_letter(c: char) -> (r: char)
    requires
        'A' <= c <= 'Z',
    ensures
        r == lower_char(c),
{
    if c == 'A' { 'a' } else if c == 'B' { 'b' } else if c == 'C' { 'c' } else if c == 'D' { 'd' }
    else if c == 'E' { 'e' } else if c == 'F' { 'f' } else if c == 'G' { 'g' } else if c == 'H' { 'h' }
    else if c == 'I' { 'i' } else if c == 'J' { 'j' } else if c == 'K' { 'k' } else if c == 'L' { 'l' }
    else if c == 'M' { 'm' } else if c == 'N' { 'n' } else if c == 'O' { 'o' } else if c == 'P' { 'p' }
    else if c == 'Q' { 'q' } else if c == 'R' { 'r' } else if c == 'S' { 's' } else if c == 'T' { 't' }
    else if c == 'U' { 'u' } else if c == 'V' { 'v' } else if c == 'W' { 'w' } else if c == 'X' { 'x' }
    else if c == 'Y' { 'y' } else { 'z' }
}

} // verus!
