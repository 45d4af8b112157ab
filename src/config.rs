//! The engine's configuration file: `key = value` lines, each optionally
//! followed by a `# comment`; other lines are ignored. Only
//! `numAnalysisThreads` is read, and it caps the number of concurrent games.
use vstd::prelude::*;
use crate::text::{digits_value, is_digits, parse_decimal, push_char};

verus! {

/// A line `key = value`, with optional blanks around `=`, optional trailing
/// blanks and an optional `# comment`; key and value are runs of word
/// characters.
pub const KEY_VALUE_PATTERN: &'static str = "^(\\w+)\\s*=\\s*(\\w+)\\s*(?:#.*)?$";

/// The pieces of `s` between newlines: one more than there are newlines.
pub open spec fn pieces(s: Seq<char>) -> Seq<Seq<char>>
    decreases s.len(),
{
    if s.len() == 0 {
        seq![seq![]]
    } else if s.last() == '\n' {
        pieces(s.drop_last()).push(seq![])
    } else {
        let p = pieces(s.drop_last());
        p.update(p.len() - 1, p.last().push(s.last()))
    }
}

/// `l` without one trailing carriage return.
pub open spec fn strip_cr(l: Seq<char>) -> Seq<char> {
    if l.len() > 0 && l.last() == '\r' {
        l.drop_last()
    } else {
        l
    }
}

/// The lines of `s`: split at each newline, a carriage return right before
/// a newline dropped, and no empty line after a final newline.
pub open spec fn lines_of(s: Seq<char>) -> Seq<Seq<char>> {
    let p = pieces(s);
    let ended = Seq::new((p.len() - 1) as nat, |j: int| strip_cr(p[j]));
    if p.last().len() == 0 {
        ended
    } else {
        ended.push(p.last())
    }
}

proof fn lemma_pieces_nonempty(s: Seq<char>)
    ensures
        pieces(s).len() >= 1,
    decreases s.len(),
{
    if s.len() > 0 {
        lemma_pieces_nonempty(s.drop_last());
    }
}

/// The key and value that `KEY_VALUE_PATTERN` captures in `line`, or `None`
/// when the line does not match.
pub uninterp spec fn key_value_fields(line: Seq<char>) -> Option<(Seq<char>, Seq<char>)>;

/// The text of the characters `chars`.
fn string_of(chars: &Vec<char>) -> (r: String)
    ensures
        r@ == chars@,
{
    let mut r = String::new();
    let mut i: usize = 0;
    while i < chars.len()
        invariant
            i <= chars@.len(),
            r@ == chars@.subrange(0, i as int),
        decreases chars.len() - i,
    {
        push_char(&mut r, chars[i]);
        assert(r@ =~= chars@.subrange(0, i + 1));
        i = i + 1;
    }
    assert(chars@.subrange(0, i as int) =~= chars@);
    r
}

/// The lines of `s`.
pub fn split_lines(s: &str) -> (r: Vec<String>)
    ensures
        r@.map_values(|l: String| l@) == lines_of(s@),
{
    let len = s.unicode_len();
    let mut done: Vec<String> = Vec::new();
    let mut cur: Vec<char> = Vec::new();
    let mut i: usize = 0;
    while i < len
        invariant
            len == s@.len(),
            i <= len,
            pieces(s@.subrange(0, i as int)).len() == done@.len() + 1,
            forall|j: int| 0 <= j < done@.len() ==> (#[trigger] done@[j])@ == strip_cr(pieces(s@.subrange(0, i as int))[j]),
            cur@ == pieces(s@.subrange(0, i as int)).last(),
        decreases len - i,
    {
        let ghost sub = s@.subrange(0, i + 1);
        assert(sub.drop_last() =~= s@.subrange(0, i as int));
        proof {
            lemma_pieces_nonempty(s@.subrange(0, i as int));
        }
        let c = s.get_char(i);
        if c == '\n' {
            if cur.len() > 0 && cur[cur.len() - 1] == '\r' {
                cur.pop();
            }
            let line = string_of(&cur);
            let ghost before = done@;
            done.push(line);
            assert forall|j: int| 0 <= j < done@.len() implies (#[trigger] done@[j])@ == strip_cr(pieces(sub)[j]) by {
                if j < before.len() {
                    assert(done@[j] == before[j]);
                }
            }
            cur = Vec::new();
            assert(cur@ =~= pieces(sub).last());
        } else {
            let ghost before = cur@;
            cur.push(c);
            assert(cur@ =~= pieces(sub).last());
        }
        i = i + 1;
    }
    let ghost p = pieces(s@.subrange(0, len as int));
    assert(s@.subrange(0, len as int) =~= s@);
    if cur.len() > 0 {
        let last = string_of(&cur);
        done.push(last);
    }
    assert(done@.map_values(|l: String| l@) =~= lines_of(s@));
    done
}

#[verifier::external_type_specification]
#[verifier::external_body]
pub struct ExRegex(regex::Regex);

#[verifier::external_type_specification]
#[verifier::external_body]
pub struct ExRegexError(regex::Error);

/// Relies on regex::Regex::new, which fails only on an invalid pattern or
/// one whose compiled form exceeds the default size limit; the key/value
/// line pattern is neither, so it compiles.
pub assume_specification[ regex::Regex::new ](re: &str) -> (r: Result<regex::Regex, regex::Error>)
    ensures
        re@ == "^(\\w+)\\s*=\\s*(\\w+)\\s*(?:#.*)?$"@ ==> r is Ok,
;

/// `KEY_VALUE_PATTERN`, compiled. This is the only way to build one, so
/// every value holds that pattern.
pub struct KeyValuePattern {
    re: regex::Regex,
}

impl KeyValuePattern {
    /// Compiles `KEY_VALUE_PATTERN`.
    pub fn new() -> Self {
        match regex::Regex::new(KEY_VALUE_PATTERN) {
            Ok(re) => KeyValuePattern { re },
            Err(_) => unreached(),
        }
    }
}

/// Relies on regex::Regex::captures with the compiled `KEY_VALUE_PATTERN`
/// (the only pattern a `KeyValuePattern` holds), reading groups 1 and 2: the
/// key and the value of a matching line. The result depends on the line
/// alone.
#[verifier::external_body]
fn match_key_value(pattern: &KeyValuePattern, line: &str) -> (r: Option<(String, String)>)
    ensures
        r is None <==> key_value_fields(line@) is None,
        r matches Some((k, v)) ==> key_value_fields(line@) == Some((k@, v@)),
{
    let caps = pattern.re.captures(line)?;
    Some((caps.get(1)?.as_str().to_string(), caps.get(2)?.as_str().to_string()))
}

/// The parsed configuration.
#[derive(Clone, Copy, Debug, PartialEq, Eq, Structural)]
pub struct Config {
    /// How many engine requests, and so games, may be in flight at once.
    pub num_analysis_threads: usize,
}

/// Why the configuration was refused.
#[derive(Clone, Copy, Debug, PartialEq, Eq, Structural)]
pub enum ConfigError {
    /// No line sets `numAnalysisThreads`.
    MissingKey,
    /// Its value is no positive integer that fits a `usize`.
    InvalidValue,
}

/// The key that sets the concurrency cap.
pub open spec fn threads_key() -> Seq<char> {
    "numAnalysisThreads"@
}

/// The view of the key/value fields found on each line.
pub open spec fn fields_view(fields: Seq<Option<(String, String)>>) -> Seq<Option<(Seq<char>, Seq<char>)>> {
    fields.map_values(|f: Option<(String, String)>| match f {
        Some((k, v)) => Some((k@, v@)),
        None => None,
    })
}

/// The value of the last line that sets `key`; later lines override earlier
/// ones.
pub open spec fn last_value_for(fields: Seq<Option<(Seq<char>, Seq<char>)>>, key: Seq<char>) -> Option<Seq<char>>
    decreases fields.len(),
{
    if fields.len() == 0 {
        None
    } else {
        match fields.last() {
            Some((k, v)) if k == key => Some(v),
            _ => last_value_for(fields.drop_last(), key),
        }
    }
}

/// The configuration that the fields of the lines give.
pub open spec fn config_of(fields: Seq<Option<(Seq<char>, Seq<char>)>>) -> Result<Config, ConfigError> {
    match last_value_for(fields, threads_key()) {
        None => Err(ConfigError::MissingKey),
        Some(v) => if is_digits(v) && 1 <= digits_value(v) <= usize::MAX {
            Ok(Config { num_analysis_threads: digits_value(v) as usize })
        } else {
            Err(ConfigError::InvalidValue)
        },
    }
}

/// The configuration given by the key/value fields found on each line
/// (`None` for a line that sets nothing).
pub fn config_from_fields(fields: &Vec<Option<(String, String)>>) -> (r: Result<Config, ConfigError>)
    ensures
        r == config_of(fields_view(fields@)),
{
    proof {
        reveal_strlit("numAnalysisThreads");
    }
    let key = String::from_str("numAnalysisThreads");
    let ghost fv = fields_view(fields@);
    let mut i: usize = fields.len();
    assert(fv.subrange(0, i as int) =~= fv);
    while i > 0
        invariant
            i <= fields@.len(),
            fv == fields_view(fields@),
            key@ == threads_key(),
            last_value_for(fv, threads_key()) == last_value_for(fv.subrange(0, i as int), threads_key()),
        decreases i,
    {
        let ghost sub = fv.subrange(0, i as int);
        assert(sub.drop_last() =~= fv.subrange(0, i - 1));
        match &fields[i - 1] {
            Some((k, v)) => {
                if *k == key {
                    return match parse_decimal(v.as_str()) {
                        Some(n) => {
                            if n >= 1 && n <= usize::MAX as u64 {
                                Ok(Config { num_analysis_threads: n as usize })
                            } else {
                                Err(ConfigError::InvalidValue)
                            }
                        },
                        None => Err(ConfigError::InvalidValue),
                    };
                }
            },
            None => {},
        }
        i = i - 1;
    }
    assert(fv.subrange(0, 0) =~= Seq::<Option<(Seq<char>, Seq<char>)>>::empty());
    Err(ConfigError::MissingKey)
}

/// The key/value fields of each line of `content`.
pub open spec fn content_fields(content: Seq<char>) -> Seq<Option<(Seq<char>, Seq<char>)>> {
    lines_of(content).map_values(|l: Seq<char>| key_value_fields(l))
}

/// Parses a configuration file's text: the configuration that the fields
/// found on its lines give.
pub fn parse_config(content: &str) -> (r: Result<Config, ConfigError>)
    ensures
        r == config_of(content_fields(content@)),
{
    let pattern = KeyValuePattern::new();
    let lines = split_lines(content);
    let mut fields: Vec<Option<(String, String)>> = Vec::new();
    let mut i: usize = 0;
    while i < lines.len()
        invariant
            i <= lines@.len(),
            lines@.map_values(|l: String| l@) == lines_of(content@),
            fields_view(fields@) == content_fields(content@).subrange(0, i as int),
        decreases lines.len() - i,
    {
        let f = match_key_value(&pattern, lines[i].as_str());
        let ghost before = fields@;
        fields.push(f);
        proof {
            assert(lines@.map_values(|l: String| l@)[i as int] == lines@[i as int]@);
            assert(fields_view(fields@) =~= fields_view(before).push(key_value_fields(lines@[i as int]@)));
            assert(content_fields(content@).subrange(0, i + 1) =~= content_fields(content@).subrange(0, i as int).push(key_value_fields(lines@[i as int]@)));
        }
        i = i + 1;
    }
    assert(content_fields(content@).subrange(0, i as int) =~= content_fields(content@));
    config_from_fields(&fields)
}

} // verus!
