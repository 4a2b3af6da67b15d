//! Trusted access to configuration tables parsed by the `toml` crate.

use vstd::prelude::*;
use vstd::utf8::encode_utf8;

verus! {

#[verifier::external_type_specification]
#[verifier::external_body]
#[verifier::reject_recursive_types(K)]
#[verifier::reject_recursive_types(V)]
pub struct ExTomlMap<K, V>(toml::map::Map<K, V>);

#[verifier::external_type_specification]
#[verifier::external_body]
pub struct ExTomlValue(toml::Value);

/// The value that a table holds under a key, as `toml::map::Map::get` finds it.
pub uninterp spec fn toml_table_get(table: toml::value::Table, key: Seq<char>) -> Option<
    toml::Value,
>;

/// The integer that a value holds, as `toml::Value::as_integer` reads it.
pub uninterp spec fn toml_value_integer(value: toml::Value) -> Option<i64>;

/// `toml::map::Map::get`: the value stored under `key`, looked up in the table's
/// underlying ordered map. What the table holds is opaque here, so the result is
/// named, not stated.
#[verifier::external_body]
pub fn table_get<'a>(table: &'a toml::value::Table, key: &str) -> (r: Option<&'a toml::Value>)
    ensures
        match r {
            Some(v) => toml_table_get(*table, key@) == Some(*v),
            None => toml_table_get(*table, key@) is None,
        },
{
    table.get(key)
}

/// `toml::Value::as_integer`: the integer if the value is one. The value is opaque
/// here (its variants include floating-point numbers), so the result is named.
#[verifier::external_body]
pub fn value_as_integer(value: &toml::Value) -> (r: Option<i64>)
    ensures
        r == toml_value_integer(*value),
{
    value.as_integer()
}

/// `toml::map::Map::new`: a table that holds nothing, so no key finds a value.
#[verifier::external_body]
pub fn table_new() -> (r: toml::value::Table)
    ensures
        forall|k: Seq<char>| #[trigger] toml_table_get(r, k) is None,
{
    toml::value::Table::new()
}

/// The integer a table holds under `key`, if it holds an integer there.
pub open spec fn table_integer(table: toml::value::Table, key: Seq<char>) -> Option<i64> {
    match toml_table_get(table, key) {
        Some(v) => toml_value_integer(v),
        None => None,
    }
}

/// Reads an integer setting: the integer under `key`, if the table holds one there.
pub fn get_integer(table: &toml::value::Table, key: &str) -> (r: Option<i64>)
    ensures
        r == table_integer(*table, key@),
{
    match table_get(table, key) {
        Some(v) => value_as_integer(v),
        None => None,
    }
}


/// The bound on how deeply a configuration text may nest: the product of its
/// deepest nesting of brackets and braces and its longest dotted key, each plus
/// one.
pub const NESTING_LIMIT: u128 = 256;

/// Where a scan of TOML text stands: in plain text, a comment, or one of the four
/// kinds of string.
pub const MODE_PLAIN: u8 = 0;
pub const MODE_COMMENT: u8 = 1;
pub const MODE_BASIC: u8 = 2;
pub const MODE_LITERAL: u8 = 3;
pub const MODE_MULTI_BASIC: u8 = 4;
pub const MODE_MULTI_LITERAL: u8 = 5;

/// What a scan of TOML text has seen so far: where it stands (`mode`), whether the
/// byte before was an escaping backslash, how many bytes of a run of quotes are
/// still to be passed over, the current and the deepest nesting of brackets and
/// braces outside strings and comments, and the dots of the current and of the
/// longest run of key text (a run ends at a line's end, a comma or an opening
/// bracket or brace; an `=` ends the key, and dots after it are not counted).
pub struct Scan {
    pub mode: u8,
    pub esc: bool,
    pub skip: nat,
    pub depth: nat,
    pub max_depth: nat,
    pub dots: nat,
    pub max_dots: nat,
    pub value: bool,
}

/// The scan before any byte.
pub open spec fn scan_start() -> Scan {
    Scan { mode: MODE_PLAIN, esc: false, skip: 0, depth: 0, max_depth: 0, dots: 0, max_dots: 0, value: false }
}

/// How many bytes `q` follow one another in `b` from index `i + k`, counting from
/// `k` and stopping at five.
pub open spec fn quote_run(b: Seq<u8>, i: int, q: u8, k: nat) -> nat
    decreases 5 - k,
{
    if k >= 5 || i + k >= b.len() || b[i + k] != q {
        k
    } else {
        quote_run(b, i, q, k + 1)
    }
}

/// The scan after byte `i` of `b`, from the scan `st` before it.
pub open spec fn scan_step(st: Scan, b: Seq<u8>, i: int) -> Scan {
    let c = b[i];
    if st.skip > 0 {
        Scan { skip: (st.skip - 1) as nat, ..st }
    } else if st.mode == MODE_PLAIN {
        if c == 0x23u8 {
            Scan { mode: MODE_COMMENT, ..st }
        } else if c == 0x22u8 {
            if quote_run(b, i, 0x22u8, 0) >= 3 {
                Scan { mode: MODE_MULTI_BASIC, skip: 2, ..st }
            } else {
                Scan { mode: MODE_BASIC, ..st }
            }
        } else if c == 0x27u8 {
            if quote_run(b, i, 0x27u8, 0) >= 3 {
                Scan { mode: MODE_MULTI_LITERAL, skip: 2, ..st }
            } else {
                Scan { mode: MODE_LITERAL, ..st }
            }
        } else if c == 0x5bu8 || c == 0x7bu8 {
            Scan {
                depth: st.depth + 1,
                max_depth: if st.depth + 1 > st.max_depth { st.depth + 1 } else { st.max_depth },
                dots: 0,
                value: false,
                ..st
            }
        } else if c == 0x5du8 || c == 0x7du8 {
            Scan { depth: if st.depth > 0 { (st.depth - 1) as nat } else { 0 }, ..st }
        } else if c == 0x2cu8 || c == 0x0au8 {
            Scan { dots: 0, value: false, ..st }
        } else if c == 0x3du8 {
            Scan { value: true, ..st }
        } else if c == 0x2eu8 && !st.value {
            Scan { dots: st.dots + 1, max_dots: if st.dots + 1 > st.max_dots { st.dots + 1 } else { st.max_dots }, ..st }
        } else {
            st
        }
    } else if st.mode == MODE_COMMENT {
        if c == 0x0au8 {
            Scan { mode: MODE_PLAIN, dots: 0, value: false, ..st }
        } else {
            st
        }
    } else if st.mode == MODE_BASIC || st.mode == MODE_MULTI_BASIC {
        if st.esc {
            Scan { esc: false, ..st }
        } else if c == 0x5cu8 {
            Scan { esc: true, ..st }
        } else if c == 0x22u8 && st.mode == MODE_BASIC {
            Scan { mode: MODE_PLAIN, ..st }
        } else if c == 0x22u8 && quote_run(b, i, 0x22u8, 0) >= 3 {
            Scan { mode: MODE_PLAIN, skip: (quote_run(b, i, 0x22u8, 0) - 1) as nat, ..st }
        } else {
            st
        }
    } else {
        if c == 0x27u8 && st.mode == MODE_LITERAL {
            Scan { mode: MODE_PLAIN, ..st }
        } else if c == 0x27u8 && quote_run(b, i, 0x27u8, 0) >= 3 {
            Scan { mode: MODE_PLAIN, skip: (quote_run(b, i, 0x27u8, 0) - 1) as nat, ..st }
        } else {
            st
        }
    }
}

/// The scan after the first `n` bytes of `b`.
pub open spec fn scan(b: Seq<u8>, n: int) -> Scan
    decreases n,
{
    if n <= 0 {
        scan_start()
    } else {
        scan_step(scan(b, n - 1), b, n - 1)
    }
}

/// Whether a text nests shallowly enough for the parser: outside its strings and
/// comments, its deepest nesting of brackets and braces and its longest dotted
/// key, each plus one, multiply to at most `NESTING_LIMIT`. No value in such a
/// text nests deeper than that product.
pub open spec fn shallow(text: Seq<char>) -> bool {
    let st = scan(encode_utf8(text), encode_utf8(text).len() as int);
    (st.max_depth + 1) * (st.max_dots + 1) <= NESTING_LIMIT
}

/// `quote_run` from `k = 0`.
fn quote_run_at(b: &[u8], i: usize, q: u8) -> (r: usize)
    requires
        i < b@.len(),
    ensures
        r == quote_run(b@, i as int, q, 0),
        r <= 5,
{
    let mut k: usize = 0;
    while k < 5 && k < b.len() - i && b[i + k] == q
        invariant
            k <= 5,
            i < b@.len(),
            quote_run(b@, i as int, q, 0) == quote_run(b@, i as int, q, k as nat),
        decreases 5 - k,
    {
        k = k + 1;
    }
    k
}

/// Whether the text is `shallow`.
pub fn is_shallow(text: &str) -> (r: bool)
    ensures
        r == shallow(text@),
{
    let b = text.as_bytes();
    let mut mode: u8 = MODE_PLAIN;
    let mut esc = false;
    let mut skip: usize = 0;
    let mut depth: usize = 0;
    let mut max_depth: usize = 0;
    let mut dots: usize = 0;
    let mut max_dots: usize = 0;
    let mut value = false;
    let mut i: usize = 0;
    while i < b.len()
        invariant
            b@ == encode_utf8(text@),
            i <= b@.len(),
            ({
                let st = scan(b@, i as int);
                &&& st.mode == mode
                &&& st.esc == esc
                &&& st.skip == skip
                &&& st.depth == depth
                &&& st.max_depth == max_depth
                &&& st.dots == dots
                &&& st.max_dots == max_dots
                &&& st.value == value
            }),
            skip <= 4,
            depth <= i && max_depth <= i && dots <= i && max_dots <= i,
        decreases b@.len() - i,
    {
        let c = b[i];
        if skip > 0 {
            skip = skip - 1;
        } else if mode == MODE_PLAIN {
            if c == 0x23 {
                mode = MODE_COMMENT;
            } else if c == 0x22 {
                if quote_run_at(b, i, 0x22) >= 3 {
                    mode = MODE_MULTI_BASIC;
                    skip = 2;
                } else {
                    mode = MODE_BASIC;
                }
            } else if c == 0x27 {
                if quote_run_at(b, i, 0x27) >= 3 {
                    mode = MODE_MULTI_LITERAL;
                    skip = 2;
                } else {
                    mode = MODE_LITERAL;
                }
            } else if c == 0x5b || c == 0x7b {
                depth = depth + 1;
                if depth > max_depth {
                    max_depth = depth;
                }
                dots = 0;
                value = false;
            } else if c == 0x5d || c == 0x7d {
                if depth > 0 {
                    depth = depth - 1;
                }
            } else if c == 0x2c || c == 0x0a {
                dots = 0;
                value = false;
            } else if c == 0x3d {
                value = true;
            } else if c == 0x2e && !value {
                dots = dots + 1;
                if dots > max_dots {
                    max_dots = dots;
                }
            }
        } else if mode == MODE_COMMENT {
            if c == 0x0a {
                mode = MODE_PLAIN;
                dots = 0;
                value = false;
            }
        } else if mode == MODE_BASIC || mode == MODE_MULTI_BASIC {
            if esc {
                esc = false;
            } else if c == 0x5c {
                esc = true;
            } else if c == 0x22 && mode == MODE_BASIC {
                mode = MODE_PLAIN;
            } else if c == 0x22 {
                let run = quote_run_at(b, i, 0x22);
                if run >= 3 {
                    mode = MODE_PLAIN;
                    skip = run - 1;
                }
            }
        } else {
            if c == 0x27 && mode == MODE_LITERAL {
                mode = MODE_PLAIN;
            } else if c == 0x27 {
                let run = quote_run_at(b, i, 0x27);
                if run >= 3 {
                    mode = MODE_PLAIN;
                    skip = run - 1;
                }
            }
        }
        i = i + 1;
    }
    if max_depth >= 256 || max_dots >= 256 {
        proof {
            let (d, k) = (max_depth as int, max_dots as int);
            assert((d + 1) * (k + 1) > 256) by (nonlinear_arith)
                requires
                    d >= 0 && k >= 0 && (d >= 256 || k >= 256),
            ;
        }
        return false;
    }
    let d: u128 = max_depth as u128 + 1;
    let k: u128 = max_dots as u128 + 1;
    assert(d * k <= 256 * 256) by (nonlinear_arith)
        requires
            d <= 256 && k <= 256,
    ;
    let product: u128 = d * k;
    product <= NESTING_LIMIT
}

/// What parsing a text as TOML gives: the value, or the parser's message.
pub uninterp spec fn toml_parse(text: Seq<char>) -> Result<toml::Value, Seq<char>>;

/// The table a value is, if it is a table.
pub uninterp spec fn toml_value_table(value: toml::Value) -> Option<toml::value::Table>;

/// `str::parse::<toml::Value>` (the `toml` crate's parser): the value the text
/// holds, or the parser's error as text. The parser's result depends on the text
/// alone and is named here. The parser and the deserializer behind it descend by
/// recursion, a call per level of nesting (an array, an inline table, a part of a
/// dotted key or header) with no limit of their own, so a deeply nested text would
/// exhaust the stack: it is only handed `shallow` texts, whose values nest at most
/// `NESTING_LIMIT` levels deep. The deserializer's `expect` calls do not fire on
/// the way to a `toml::Value`: the one that takes a table's values (de.rs, in
/// `next_key_seed`) is reached only for a table picked because its values are
/// still there; the one for arrays of tables (`next_element_seed`) only for array
/// tables, whose values no other path takes, each visited once in order; and the
/// one in `string_or_table` serves enums, which a `toml::Value` never asks for,
/// and follows a check that exactly one table is there.
#[verifier::external_body]
pub fn parse_value(text: &str) -> (r: Result<toml::Value, String>)
    requires
        shallow(text@),
    ensures
        match r {
            Ok(v) => toml_parse(text@) == Ok::<toml::Value, Seq<char>>(v),
            Err(m) => toml_parse(text@) == Err::<toml::Value, Seq<char>>(m@),
        },
{
    match text.parse::<toml::Value>() {
        Ok(v) => Ok(v),
        Err(e) => Err(e.to_string()),
    }
}

/// The table inside a `toml::Value::Table`, telling that variant from the others.
#[verifier::external_body]
pub fn value_into_table(value: toml::Value) -> (r: Option<toml::value::Table>)
    ensures
        r == toml_value_table(value),
{
    match value {
        toml::Value::Table(t) => Some(t),
        _ => None,
    }
}

/// What reading a configuration text gives: the table it holds, or why it holds
/// none (that it nests too deeply, the parser's message, or that the top-level
/// value is not a table).
pub open spec fn table_result(text: Seq<char>) -> Result<toml::value::Table, Seq<char>> {
    if !shallow(text) {
        Err("Configuration nests too deeply."@)
    } else {
        match toml_parse(text) {
            Err(m) => Err(m),
            Ok(v) => match toml_value_table(v) {
                Some(t) => Ok(t),
                None => Err("Top-Level value must be a table."@),
            },
        }
    }
}

/// Reads a configuration text: the table it holds, or why it holds none.
pub fn table_from_str(text: &str) -> (r: Result<toml::value::Table, String>)
    ensures
        match (r, table_result(text@)) {
            (Ok(t), Ok(u)) => t == u,
            (Err(m), Err(n)) => m@ == n,
            _ => false,
        },
{
    if !is_shallow(text) {
        let m = String::from_str("Configuration nests too deeply.");
        proof {
            reveal_strlit("Configuration nests too deeply.");
        }
        return Err(m);
    }
    match parse_value(text) {
        Err(m) => Err(m),
        Ok(v) => match value_into_table(v) {
            Some(t) => Ok(t),
            None => Err(String::from_str("Top-Level value must be a table.")),
        },
    }
}

} // verus!
