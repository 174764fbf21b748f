//! The server configuration dialect: `#`-prefixed comments and `key=value`
//! lines, split at the first `=`, empty values permitted, last key wins.
//!
//! Reading the file itself is the surrounding program's business; these
//! functions take the lines and decide everything else: parsing, lookup,
//! and the decimal port values the callers need.

use vstd::prelude::*;
use vstd::string::*;

verus! {

/// Errors of the configuration parser.
#[derive(Debug, Clone, Copy, PartialEq, Eq, Structural)]
pub enum PropParseError {
    /// A non-comment line without `=`.
    NoValue,
}

/// One parsed configuration line.
#[derive(Debug, PartialEq)]
pub enum PropLine {
    Comment,
    Prop(String, String),
}

/// Index of the first `=` in `s`, or `s.len()` if there is none.
pub open spec fn eq_pos(s: Seq<char>) -> int
    decreases s.len(),
{
    if s.len() == 0 {
        0
    } else if s[0] == '=' {
        0
    } else {
        1 + eq_pos(s.drop_first())
    }
}

/// `eq_pos` is the least index holding `=`.
pub proof fn lemma_eq_pos_props(s: Seq<char>)
    ensures
        0 <= eq_pos(s) <= s.len(),
        eq_pos(s) < s.len() ==> s[eq_pos(s)] == '=',
        forall|j: int| 0 <= j < eq_pos(s) ==> s[j] != '=',
    decreases s.len(),
{
    if s.len() == 0 {
    } else if s[0] == '=' {
    } else {
        lemma_eq_pos_props(s.drop_first());
        assert forall|j: int| 0 <= j < eq_pos(s) implies s[j] != '=' by {
            if j > 0 {
                assert(s.drop_first()[j - 1] != '=');
            }
        }
    }
}

/// The line is a comment: it starts with `#`.
pub open spec fn is_comment(s: Seq<char>) -> bool {
    s.len() > 0 && s[0] == '#'
}

/// Parse one configuration line: a comment, or the key and value split at
/// the first `=`, or the error for a line with neither.
pub fn parse_prop_line(line: &str) -> (r: Result<PropLine, PropParseError>)
    ensures
        match r {
            Ok(PropLine::Comment) => is_comment(line@),
            Ok(PropLine::Prop(k, v)) => !is_comment(line@) && eq_pos(line@) < line@.len() && k@
                == line@.take(eq_pos(line@)) && v@ == line@.skip(eq_pos(line@) + 1),
            Err(e) => !is_comment(line@) && eq_pos(line@) >= line@.len() && e
                == PropParseError::NoValue,
        },
{
    proof {
        lemma_eq_pos_props(line@);
    }
    let n = line.unicode_len();
    if n > 0 && line.get_char(0) == '#' {
        return Ok(PropLine::Comment);
    }
    let mut i: usize = 0;
    while i < n
        invariant
            i <= n,
            n == line@.len(),
            !is_comment(line@),
            forall|j: int| 0 <= j < i ==> line@[j] != '=',
            0 <= eq_pos(line@) <= line@.len(),
            eq_pos(line@) < line@.len() ==> line@[eq_pos(line@)] == '=',
            forall|j: int| 0 <= j < eq_pos(line@) ==> line@[j] != '=',
        decreases n - i,
    {
        if line.get_char(i) == '=' {
            assert(eq_pos(line@) == i);
            let k = String::from_str(line.substring_char(0, i));
            let v = String::from_str(line.substring_char(i + 1, n));
            proof {
                assert(k@ =~= line@.take(eq_pos(line@)));
                assert(v@ =~= line@.skip(eq_pos(line@) + 1));
            }
            return Ok(PropLine::Prop(k, v));
        }
        i = i + 1;
    }
    Err(PropParseError::NoValue)
}

/// The key/value views of a list of owned pairs.
pub open spec fn pairs_view(ps: Seq<(String, String)>) -> Seq<(Seq<char>, Seq<char>)> {
    ps.map_values(|p: (String, String)| (p.0@, p.1@))
}

/// What parsing every line yields: the key/value pairs in order, comments
/// dropped, or the first line's error.
pub open spec fn props_of(lines: Seq<Seq<char>>) -> Result<
    Seq<(Seq<char>, Seq<char>)>,
    PropParseError,
>
    decreases lines.len(),
{
    if lines.len() == 0 {
        Ok(Seq::empty())
    } else {
        let first = lines[0];
        let rest = props_of(lines.drop_first());
        if is_comment(first) {
            rest
        } else if eq_pos(first) < first.len() {
            match rest {
                Ok(ps) => Ok(seq![(first.take(eq_pos(first)), first.skip(eq_pos(first) + 1))] + ps),
                Err(e) => Err(e),
            }
        } else {
            Err(PropParseError::NoValue)
        }
    }
}

/// Parse a whole configuration, line by line, keeping the pairs in file order.
pub fn read_properties(lines: &Vec<String>) -> (r: Result<Vec<(String, String)>, PropParseError>)
    ensures
        ({
            let lv = lines@.map_values(|l: String| l@);
            match r {
                Ok(ps) => props_of(lv) == Ok::<_, PropParseError>(pairs_view(ps@)),
                Err(e) => props_of(lv) == Err::<Seq<(Seq<char>, Seq<char>)>, _>(e),
            }
        }),
{
    let ghost lv = lines@.map_values(|l: String| l@);
    let mut out: Vec<(String, String)> = Vec::new();
    let mut i: usize = 0;
    proof {
        assert(lv.skip(0) =~= lv);
        assert forall|ps: Seq<(Seq<char>, Seq<char>)>|
            props_of(lv.skip(0)) == Ok::<_, PropParseError>(ps) implies props_of(lv) == Ok::<
            _,
            PropParseError,
        >(pairs_view(out@) + ps) by {
            assert(pairs_view(out@) + ps =~= ps);
        }
    }
    while i < lines.len()
        invariant
            i <= lines@.len(),
            lv == lines@.map_values(|l: String| l@),
            lv.len() == lines@.len(),
            forall|ps: Seq<(Seq<char>, Seq<char>)>|
                props_of(lv.skip(i as int)) == Ok::<_, PropParseError>(ps) ==> props_of(lv) == Ok::<
                    _,
                    PropParseError,
                >(pairs_view(out@) + ps),
            forall|e: PropParseError|
                props_of(lv.skip(i as int)) == Err::<Seq<(Seq<char>, Seq<char>)>, _>(e)
                    ==> props_of(lv) == Err::<Seq<(Seq<char>, Seq<char>)>, _>(e),
        decreases lines@.len() - i,
    {
        let ghost pre = out@;
        let line = &lines[i];
        proof {
            assert(lv.skip(i as int).drop_first() =~= lv.skip(i as int + 1));
            assert(lv.skip(i as int)[0] == line@);
        }
        match parse_prop_line(line.as_str()) {
            Ok(PropLine::Comment) => {},
            Ok(PropLine::Prop(k, v)) => {
                out.push((k, v));
                proof {
                    assert(pairs_view(out@) =~= pairs_view(pre) + seq![
                        (
                            line@.take(eq_pos(line@)),
                            line@.skip(eq_pos(line@) + 1),
                        ),
                    ]);
                    assert forall|ps: Seq<(Seq<char>, Seq<char>)>|
                        props_of(lv.skip(i as int + 1)) == Ok::<_, PropParseError>(
                            ps,
                        ) implies props_of(lv) == Ok::<_, PropParseError>(
                        pairs_view(out@) + ps,
                    ) by {
                        let whole = seq![
                            (
                                line@.take(eq_pos(line@)),
                                line@.skip(eq_pos(line@) + 1),
                            ),
                        ] + ps;
                        assert(props_of(lv.skip(i as int)) == Ok::<_, PropParseError>(whole));
                        assert(pairs_view(pre) + whole =~= pairs_view(out@) + ps);
                    }
                }
            },
            Err(e) => {
                return Err(e);
            },
        }
        i = i + 1;
    }
    proof {
        assert(lv.skip(lines@.len() as int) =~= Seq::<Seq<char>>::empty());
        assert(pairs_view(out@) + Seq::<(Seq<char>, Seq<char>)>::empty() =~= pairs_view(out@));
    }
    Ok(out)
}

/// The value of the last pair whose key matches, if any.
pub open spec fn lookup_spec(ps: Seq<(Seq<char>, Seq<char>)>, key: Seq<char>) -> Option<Seq<char>>
    decreases ps.len(),
{
    if ps.len() == 0 {
        None
    } else if ps.last().0 == key {
        Some(ps.last().1)
    } else {
        lookup_spec(ps.drop_last(), key)
    }
}

/// Look a key up, duplicate keys resolved in favour of the last.
pub fn get_prop(props: &Vec<(String, String)>, key: &str) -> (r: Option<String>)
    ensures
        match r {
            Some(v) => lookup_spec(pairs_view(props@), key@) == Some(v@),
            None => lookup_spec(pairs_view(props@), key@) is None,
        },
{
    let keys = String::from_str(key);
    let ghost pv = pairs_view(props@);
    let mut i: usize = props.len();
    proof {
        assert(pv.take(props@.len() as int) =~= pv);
    }
    while i > 0
        invariant
            i <= props@.len(),
            pv == pairs_view(props@),
            pv.len() == props@.len(),
            keys@ == key@,
            lookup_spec(pv, key@) == lookup_spec(pv.take(i as int), key@),
        decreases i,
    {
        proof {
            assert(pv.take(i as int).drop_last() =~= pv.take(i as int - 1));
            assert(pv.take(i as int).last() == pv[i as int - 1]);
        }
        let entry = &props[i - 1];
        if entry.0 == keys {
            return Some(entry.1.clone());
        }
        i = i - 1;
    }
    proof {
        assert(pv.take(0) =~= Seq::<(Seq<char>, Seq<char>)>::empty());
    }
    None
}

/// The char is a decimal digit.
pub open spec fn is_digit(c: char) -> bool {
    48 <= c as u32 <= 57
}

/// The digit's value.
pub open spec fn digit_val(c: char) -> nat {
    (c as u32 - 48) as nat
}

/// Every char of `s` is a decimal digit.
pub open spec fn all_digits(s: Seq<char>) -> bool {
    forall|j: int| 0 <= j < s.len() ==> is_digit(s[j])
}

/// The decimal value of a digit string.
pub open spec fn dec_val(s: Seq<char>) -> nat
    decreases s.len(),
{
    if s.len() == 0 {
        0
    } else {
        dec_val(s.drop_last()) * 10 + digit_val(s.last())
    }
}

/// The digits of a decimal literal: an optional leading `+` is dropped.
pub open spec fn u16_digits(s: Seq<char>) -> Seq<char> {
    if s.len() > 0 && s[0] == '+' {
        s.drop_first()
    } else {
        s
    }
}

/// The string is a decimal `u16`: at least one digit, all digits, in range.
pub open spec fn u16_str_ok(s: Seq<char>) -> bool {
    let d = u16_digits(s);
    d.len() >= 1 && all_digits(d) && dec_val(d) <= 65535
}

/// A longer digit string never has a smaller value.
pub proof fn lemma_dec_val_prefix(s: Seq<char>, i: int)
    requires
        0 <= i <= s.len(),
    ensures
        dec_val(s) >= dec_val(s.take(i)),
    decreases s.len(),
{
    if i < s.len() {
        assert(s.drop_last().take(i) =~= s.take(i));
        lemma_dec_val_prefix(s.drop_last(), i);
    } else {
        assert(s.take(i) =~= s);
    }
}

/// Parse a decimal `u16`, accepting an optional leading `+`.
pub fn parse_u16(s: &str) -> (r: Option<u16>)
    ensures
        match r {
            Some(v) => u16_str_ok(s@) && v == dec_val(u16_digits(s@)),
            None => !u16_str_ok(s@),
        },
{
    let n = s.unicode_len();
    let mut start: usize = 0;
    if n > 0 && s.get_char(0) == '+' {
        start = 1;
    }
    let ghost d = u16_digits(s@);
    proof {
        if start == 1 {
            assert(d =~= s@.skip(1));
        } else {
            assert(d =~= s@.skip(0));
        }
    }
    if n == start {
        return None;
    }
    let mut acc: u32 = 0;
    let mut i: usize = start;
    while i < n
        invariant
            start <= i <= n,
            n == s@.len(),
            d == u16_digits(s@),
            d =~= s@.skip(start as int),
            acc <= 65535,
            acc == dec_val(d.take(i - start)),
            all_digits(d.take(i - start)),
        decreases n - i,
    {
        let c = s.get_char(i);
        let u = c as u32;
        proof {
            assert(d[i - start] == s@[i as int]);
        }
        if u < 48 || u > 57 {
            assert(!is_digit(d[i - start]));
            return None;
        }
        let step: u32 = acc * 10 + (u - 48);
        proof {
            assert(d.take(i - start + 1).drop_last() =~= d.take(i - start));
            assert(d.take(i - start + 1).last() == d[i - start]);
            assert(step == dec_val(d.take(i - start + 1)));
        }
        if step > 65535 {
            proof {
                lemma_dec_val_prefix(d, i - start + 1);
            }
            return None;
        }
        acc = step;
        i = i + 1;
    }
    proof {
        assert(d.take(n - start) =~= d);
    }
    Some(acc as u16)
}

/// The rcon endpoint the admin command needs: the `rcon.port` value (default
/// 0) parsed as a port, and the `rcon.password` value (default empty).
pub fn read_portauth(props: &Vec<(String, String)>) -> (r: Option<(u16, String)>)
    ensures
        ({
            let ps = match lookup_spec(pairs_view(props@), "rcon.port"@) {
                Some(v) => v,
                None => "0"@,
            };
            match r {
                Some((port, auth)) => u16_str_ok(ps) && port == dec_val(u16_digits(ps)) && auth@
                    == (match lookup_spec(pairs_view(props@), "rcon.password"@) {
                    Some(v) => v,
                    None => ""@,
                }),
                None => !u16_str_ok(ps),
            }
        }),
{
    let port = match get_prop(props, "rcon.port") {
        Some(v) => match parse_u16(v.as_str()) {
            Some(p) => p,
            None => {
                return None;
            },
        },
        None => match parse_u16("0") {
            Some(p) => p,
            None => {
                return None;
            },
        },
    };
    let auth = match get_prop(props, "rcon.password") {
        Some(v) => v,
        None => String::new(),
    };
    proof {
        reveal_strlit("");
    }
    Some((port, auth))
}

/// The port the status client dials: the `server-port` value, default 25565.
pub fn get_server_port(props: &Vec<(String, String)>) -> (r: Option<u16>)
    ensures
        ({
            let ps = match lookup_spec(pairs_view(props@), "server-port"@) {
                Some(v) => v,
                None => "25565"@,
            };
            match r {
                Some(port) => u16_str_ok(ps) && port == dec_val(u16_digits(ps)),
                None => !u16_str_ok(ps),
            }
        }),
{
    match get_prop(props, "server-port") {
        Some(v) => parse_u16(v.as_str()),
        None => parse_u16("25565"),
    }
}

/// Where the server configuration sits under a discovered root, if one was
/// discovered at all.
pub fn find_serverprops(root: Option<&str>) -> (r: Option<String>)
    ensures
        match (root, r) {
            (Some(p), Some(s)) => s@ == p@ + "/server.properties"@,
            (None, None) => true,
            _ => false,
        },
{
    match root {
        Some(p) => Some(String::from_str(p).concat("/server.properties")),
        None => None,
    }
}

} // verus!
