//! Checking a written `.config` against a symbol dump: every assignment
//! line must name a symbol the dump holds.

use vstd::prelude::*;

use crate::kconfig::{find_eq, spec_find_from, spec_has_config_prefix, spec_lines, spec_trim,
    split_lines, trim_str};
use crate::kconfig_types::{Symbol, Symbols};

verus! {

/// Whether the dump holds a symbol with the given name.
pub open spec fn spec_dump_has(syms: Seq<Symbol>, name: Seq<char>) -> bool {
    exists|i: int|
        0 <= i < syms.len() && ((#[trigger] syms[i]).name matches Some(n) && n@ == name)
}

/// Whether one assignment line is acceptable: an `=` separates a name and
/// a value; the name carries the `CONFIG_` prefix and is non-empty beyond
/// it; the value up to any second `=` is non-empty; and the dump holds the
/// named symbol.
pub open spec fn spec_line_ok(syms: Seq<Symbol>, line: Seq<char>) -> bool {
    match spec_find_from(line, 0, '=') {
        None => false,
        Some(p) => {
            let name_t = spec_trim(line.take(p));
            let value_seg = match spec_find_from(line, p + 1, '=') {
                Some(q) => line.subrange(p + 1, q),
                None => line.skip(p + 1),
            };
            let value = spec_trim(value_seg);
            &&& spec_has_config_prefix(name_t)
            &&& name_t.skip(7).len() > 0
            &&& value.len() > 0
            &&& spec_dump_has(syms, name_t.skip(7))
        },
    }
}

/// The first symbol of the dump carrying the name, if any.
pub fn get_symbol_by_name<'a>(symbols: &'a Symbols, name: &str) -> (r: Option<&'a Symbol>)
    ensures
        r matches Some(sym) ==> spec_dump_has(symbols.symbols@, name@) && (sym.name matches Some(n)
            && n@ == name@),
        r is None ==> !spec_dump_has(symbols.symbols@, name@),
{
    let n = symbols.symbols.len();
    let mut i: usize = 0;
    while i < n
        invariant
            n == symbols.symbols@.len(),
            0 <= i <= n,
            forall|j: int|
                0 <= j < i ==> !((#[trigger] symbols.symbols@[j]).name matches Some(nm) && nm@
                    == name@),
        decreases n - i,
    {
        let hit = match &symbols.symbols[i].name {
            Some(nm) => {
                let owned: String = name.to_owned();
                nm.eq(&owned)
            },
            None => false,
        };
        if hit {
            return Some(&symbols.symbols[i]);
        }
        i += 1;
    }
    proof {
        assert forall|k: int|
            0 <= k < symbols.symbols@.len() implies !((#[trigger] symbols.symbols@[k]).name
            matches Some(nm) && nm@ == name@) by {}
    }
    None
}

/// Whether one line is an acceptable assignment against the dump.
fn validate_line(symbols: &Symbols, line: &str) -> (r: bool)
    ensures
        r == spec_line_ok(symbols.symbols@, line@),
{
    let p = match find_eq(line) {
        Some(p) => p,
        None => {
            return false;
        },
    };
    let n = line.unicode_len();
    let name_raw = line.substring_char(0, p);
    proof {
        assert(name_raw@ =~= line@.take(p as int));
    }
    let name_t = trim_str(name_raw);
    let rest = line.substring_char(p + 1, n);
    proof {
        assert(rest@ =~= line@.skip(p + 1));
    }
    let value_seg = match find_eq(rest) {
        Some(q) => {
            let seg = rest.substring_char(0, q);
            proof {
                lemma_find_shift(line@, p + 1, rest@, q as int);
                assert(seg@ =~= line@.subrange(p + 1, p + 1 + q));
            }
            seg
        },
        None => {
            proof {
                lemma_find_shift_none(line@, p + 1, rest@);
            }
            rest
        },
    };
    let value = trim_str(value_seg);
    let ntn = name_t.unicode_len();
    let has_prefix = ntn >= 7 && name_t.get_char(0) == 'C' && name_t.get_char(1) == 'O'
        && name_t.get_char(2) == 'N' && name_t.get_char(3) == 'F' && name_t.get_char(4) == 'I'
        && name_t.get_char(5) == 'G' && name_t.get_char(6) == '_';
    if !has_prefix {
        return false;
    }
    if ntn == 7 {
        proof {
            assert(name_t@.skip(7).len() == 0);
        }
        return false;
    }
    if value.unicode_len() == 0 {
        return false;
    }
    let stripped = name_t.substring_char(7, ntn);
    proof {
        assert(stripped@ =~= name_t@.skip(7));
    }
    match get_symbol_by_name(symbols, stripped) {
        Some(_) => true,
        None => false,
    }
}

/// Relating a search in a suffix to the whole line: a hit at `q` in the
/// suffix starting at `b` is a hit at `b + q` in the line.
proof fn lemma_find_shift(s: Seq<char>, b: int, rest: Seq<char>, q: int)
    requires
        0 <= b <= s.len(),
        rest == s.skip(b),
        spec_find_from(rest, 0, '=') == Some(q),
    ensures
        spec_find_from(s, b, '=') == Some(b + q),
        0 <= q < rest.len(),
{
    lemma_find_shift_rec(s, b, rest, 0);
    lemma_find_in_range(rest, 0, '=');
}

proof fn lemma_find_shift_none(s: Seq<char>, b: int, rest: Seq<char>)
    requires
        0 <= b <= s.len(),
        rest == s.skip(b),
        spec_find_from(rest, 0, '=') is None,
    ensures
        spec_find_from(s, b, '=') is None,
{
    lemma_find_shift_rec(s, b, rest, 0);
}

proof fn lemma_find_shift_rec(s: Seq<char>, b: int, rest: Seq<char>, j: int)
    requires
        0 <= b <= s.len(),
        0 <= j,
        rest == s.skip(b),
    ensures
        spec_find_from(s, b + j, '=') == (match spec_find_from(rest, j, '=') {
            Some(q) => Some(b + q),
            None => None::<int>,
        }),
    decreases rest.len() - j,
{
    if j < rest.len() {
        assert(rest[j] == s[b + j]);
        if rest[j] != '=' {
            lemma_find_shift_rec(s, b, rest, j + 1);
        }
    }
}

proof fn lemma_find_in_range(s: Seq<char>, i: int, c: char)
    requires
        spec_find_from(s, i, c) is Some,
        0 <= i,
    ensures
        i <= spec_find_from(s, i, c)->Some_0 < s.len(),
    decreases s.len() - i,
{
    if i < s.len() && s[i] != c {
        lemma_find_in_range(s, i + 1, c);
    }
}

/// Validate the content of a written `.config` against the dump: every
/// line that is neither blank nor a comment must be an acceptable
/// assignment.  Yields the one-based number of the first offending line.
pub fn validate_dotconfig(symbols: &Symbols, content: &str) -> (r: Result<(), usize>)
    ensures
        r is Ok <==> (forall|i: int|
            0 <= i < spec_lines(content@).len() ==> {
                let t = spec_trim(#[trigger] spec_lines(content@)[i]);
                t.len() == 0 || t[0] == '#' || spec_line_ok(symbols.symbols@, spec_lines(content@)[i])
            }),
{
    let lines = split_lines(content);
    let n = lines.len();
    let ghost ls = spec_lines(content@);
    let mut i: usize = 0;
    while i < n
        invariant
            ls == spec_lines(content@),
            n == ls.len(),
            lines@.len() == n,
            forall|j: int| 0 <= j < n ==> (#[trigger] lines@[j])@ == ls[j],
            0 <= i <= n,
            forall|j: int|
                0 <= j < i ==> {
                    let t = spec_trim(#[trigger] ls[j]);
                    t.len() == 0 || t[0] == '#' || spec_line_ok(symbols.symbols@, ls[j])
                },
        decreases n - i,
    {
        let t = trim_str(lines[i].as_str());
        let tn = t.unicode_len();
        let skip = tn == 0 || t.get_char(0) == '#';
        if !skip {
            if !validate_line(symbols, lines[i].as_str()) {
                return Err(i + 1);
            }
        }
        i += 1;
    }
    Ok(())
}

} // verus!
