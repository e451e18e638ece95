//! The line-oriented configuration source: one `CONFIG_<NAME>=<VALUE>`
//! assignment per line, applied against the schema through the validator.
//!
//! The `CONFIG_` prefix is stripped from the key alone; a value that
//! names another symbol keeps whatever prefix it carries.

use vstd::prelude::*;

use crate::schema::{lemma_lookup_frame, spec_lookup, spec_modules_tri, spec_recalc, spec_same_shape,
    spec_set_outcome, spec_write_rel, Schema, SetOutcome};
use crate::symbol::{set_err_corresponds, Symbol, SymbolValue};
use crate::transaction::Transaction;

verus! {

/// ASCII whitespace as the parser trims it.
pub open spec fn spec_is_ws(c: char) -> bool {
    c == ' ' || c == '\t' || c == '\r' || c == '\n'
}

/// Index of the first non-whitespace character at or after `i`.
pub open spec fn spec_skip_ws(s: Seq<char>, i: int) -> int
    decreases s.len() - i,
{
    if i < 0 || i >= s.len() {
        s.len() as int
    } else if spec_is_ws(s[i]) {
        spec_skip_ws(s, i + 1)
    } else {
        i
    }
}

/// Length of `s` with trailing whitespace dropped.
pub open spec fn spec_ws_end(s: Seq<char>) -> int
    decreases s.len(),
{
    if s.len() == 0 {
        0
    } else if spec_is_ws(s.last()) {
        spec_ws_end(s.drop_last())
    } else {
        s.len() as int
    }
}

/// `s` with surrounding whitespace dropped.
pub open spec fn spec_trim(s: Seq<char>) -> Seq<char> {
    let a = spec_skip_ws(s, 0);
    let b = spec_ws_end(s);
    if a < b {
        s.subrange(a, b)
    } else {
        Seq::<char>::empty()
    }
}

/// Index of the first `'"'`-free character at or after `i`.
pub open spec fn spec_skip_quotes(s: Seq<char>, i: int) -> int
    decreases s.len() - i,
{
    if i < 0 || i >= s.len() {
        s.len() as int
    } else if s[i] == '"' {
        spec_skip_quotes(s, i + 1)
    } else {
        i
    }
}

/// Length of `s` with trailing `'"'` characters dropped.
pub open spec fn spec_quote_end(s: Seq<char>) -> int
    decreases s.len(),
{
    if s.len() == 0 {
        0
    } else if s.last() == '"' {
        spec_quote_end(s.drop_last())
    } else {
        s.len() as int
    }
}

/// `s` with surrounding double quotes dropped.
pub open spec fn spec_trim_quotes(s: Seq<char>) -> Seq<char> {
    let a = spec_skip_quotes(s, 0);
    let b = spec_quote_end(s);
    if a < b {
        s.subrange(a, b)
    } else {
        Seq::<char>::empty()
    }
}

/// Whether `s` starts with the key prefix `CONFIG_`.
pub open spec fn spec_has_config_prefix(s: Seq<char>) -> bool {
    s.len() >= 7 && s[0] == 'C' && s[1] == 'O' && s[2] == 'N' && s[3] == 'F' && s[4] == 'I' && s[5]
        == 'G' && s[6] == '_'
}

/// `s` with every leading `CONFIG_` prefix dropped.
pub open spec fn spec_strip_config(s: Seq<char>) -> Seq<char>
    decreases s.len(),
{
    if spec_has_config_prefix(s) {
        spec_strip_config(s.skip(7))
    } else {
        s
    }
}

/// Index of the first occurrence of `c` at or after `i`, if any.
pub open spec fn spec_find_from(s: Seq<char>, i: int, c: char) -> Option<int>
    decreases s.len() - i,
{
    if i < 0 || i >= s.len() {
        None
    } else if s[i] == c {
        Some(i)
    } else {
        spec_find_from(s, i + 1, c)
    }
}

/// The lines of a text, accumulated character by character: a newline
/// closes the running line (with one trailing carriage return dropped),
/// and a non-empty final segment is a line of its own.
pub open spec fn spec_lines_acc(
    s: Seq<char>,
    i: int,
    cur: Seq<char>,
    acc: Seq<Seq<char>>,
) -> Seq<Seq<char>>
    decreases s.len() - i,
{
    if i < 0 || i >= s.len() {
        if cur.len() > 0 {
            acc.push(cur)
        } else {
            acc
        }
    } else if s[i] == '\n' {
        spec_lines_acc(s, i + 1, Seq::<char>::empty(), acc.push(spec_strip_cr(cur)))
    } else {
        spec_lines_acc(s, i + 1, cur.push(s[i]), acc)
    }
}

/// One trailing carriage return dropped.
pub open spec fn spec_strip_cr(s: Seq<char>) -> Seq<char> {
    if s.len() > 0 && s.last() == '\r' {
        s.drop_last()
    } else {
        s
    }
}

pub open spec fn spec_lines(s: Seq<char>) -> Seq<Seq<char>> {
    spec_lines_acc(s, 0, Seq::<char>::empty(), Seq::<Seq<char>>::empty())
}

/// What one line means.
pub enum KLine {
    /// Empty, or a comment.
    Skip,
    /// No `=` separator.
    Invalid,
    /// An assignment: the key is trimmed and stripped of its `CONFIG_`
    /// prefix, the value trimmed of whitespace and surrounding quotes.
    Assign { key: Seq<char>, value: Seq<char> },
}

/// The meaning of one source line.
pub open spec fn spec_parse_kline(line: Seq<char>) -> KLine {
    let t = spec_trim(line);
    if t.len() == 0 || t[0] == '#' {
        KLine::Skip
    } else {
        match spec_find_from(t, 0, '=') {
            None => KLine::Invalid,
            Some(p) => KLine::Assign {
                key: spec_strip_config(spec_trim(t.take(p))),
                value: spec_trim_quotes(spec_trim(t.skip(p + 1))),
            },
        }
    }
}

/// The assignments of a line list, each with its one-based line number;
/// lines that carry no assignment contribute nothing.
pub open spec fn spec_assigns_from(lines: Seq<Seq<char>>, i: int) -> Seq<(Seq<char>, Seq<char>, int)>
    decreases lines.len() - i,
{
    if i < 0 || i >= lines.len() {
        Seq::empty()
    } else {
        match spec_parse_kline(lines[i]) {
            KLine::Assign { key, value } => seq![(key, value, i + 1)] + spec_assigns_from(
                lines,
                i + 1,
            ),
            _ => spec_assigns_from(lines, i + 1),
        }
    }
}

/// One parsed assignment: the symbol, its textual value, and the source
/// line it came from.
#[derive(Debug)]
pub struct Assignment {
    pub symbol: String,
    pub value: String,
    pub line: usize,
}

/// What the journal holds for one applied assignment: its symbol, its
/// source location (the line clamped into the record's range), and the
/// late-bound textual value it intended.
pub open spec fn spec_applied_record(tx: Transaction, a: Assignment, fname: Seq<char>) -> bool {
    &&& tx.symbol@ == a.symbol@
    &&& tx.file@ == fname
    &&& tx.line as int == (if a.line as int > 0xffff_ffff {
        0xffff_ffff as int
    } else {
        a.line as int
    })
    &&& (tx.value matches SymbolValue::Auto(txt) && txt@ == a.value@)
}

/// The validator's effect of one tracked write: on a refused value the
/// arena is unchanged and the record carries the corresponding error; on
/// an accepted one the record is clean and the arena is the written state
/// swept by recalculation.
pub open spec fn spec_tracked_outcome(
    pre: Seq<Symbol>,
    id: int,
    val: SymbolValue,
    post: Seq<Symbol>,
    tx: Transaction,
) -> bool {
    match spec_set_outcome(pre, spec_modules_tri(pre), id, val) {
        SetOutcome::Refused(k) => post == pre && (tx.error matches Some(e) && set_err_corresponds(
            e,
            k,
        )),
        SetOutcome::Written { tri, text } => tx.error is None && (exists|w: Seq<Symbol>|
            #[trigger] spec_write_rel(pre, id, tri, text, w) && post == spec_recalc(w)),
    }
}

/// One application step: the assignment's symbol resolves in the incoming
/// state, the journal record carries the assignment and the values read
/// around the write, and the outgoing state and record are those of the
/// tracked validator on the late-bound value.
pub open spec fn spec_apply_step(
    pre: Seq<Symbol>,
    a: Assignment,
    fname: Seq<char>,
    post: Seq<Symbol>,
    tx: Transaction,
) -> bool {
    match spec_lookup(pre, a.symbol@) {
        None => false,
        Some(id) => {
            &&& spec_applied_record(tx, a, fname)
            &&& tx.traceback is None
            &&& tx.value_before == pre[id].spec_read_value()
            &&& tx.value_after == post[id].spec_read_value()
            &&& exists|val: SymbolValue|
                #[trigger] spec_tracked_outcome(pre, id, val, post, tx) && (val matches
                SymbolValue::Auto(t2) && t2@ == a.value@)
        },
    }
}

/// A whole tracked run: state `i + 1` and record `i` come from applying
/// assignment `i` to state `i`.
pub open spec fn spec_apply_trace(
    pre: Seq<Symbol>,
    assigns: Seq<Assignment>,
    fname: Seq<char>,
    txs: Seq<Transaction>,
    states: Seq<Seq<Symbol>>,
) -> bool {
    &&& states.len() == assigns.len() + 1
    &&& states[0] == pre
    &&& txs.len() == assigns.len()
    &&& forall|i: int|
        0 <= i < assigns.len() ==> spec_apply_step(
            states[i],
            #[trigger] assigns[i],
            fname,
            states[i + 1],
            txs[i],
        )
}

/// A parsed line-oriented configuration source.
#[derive(Debug)]
pub struct KConfig {
    pub filename: String,
    pub assignments: Vec<Assignment>,
}

/// Parsing failures of the line-oriented format.
#[derive(Debug, Clone, PartialEq, Eq)]
pub enum KConfigError {
    /// A non-comment line without an `=` separator; carries the one-based
    /// line number.
    InvalidLine { line: usize },
}

/// Failures of applying a parsed configuration to a schema.  A refused
/// assignment is no failure here: it is journalled, and the run goes on
/// so that every error of a source is seen in one run.
#[derive(Debug)]
pub enum ApplyError {
    /// A line assigns a symbol the schema does not hold.
    UnknownSymbol { symbol: String, line: usize },
}

pub(crate) fn is_ws(c: char) -> (r: bool)
    ensures
        r == spec_is_ws(c),
{
    c == ' ' || c == '\t' || c == '\r' || c == '\n'
}

/// Split a text into lines.
pub(crate) fn split_lines(s: &str) -> (r: Vec<String>)
    ensures
        r@.len() == spec_lines(s@).len(),
        forall|i: int| 0 <= i < r@.len() ==> (#[trigger] r@[i])@ == spec_lines(s@)[i],
{
    let n = s.unicode_len();
    let mut out: Vec<String> = Vec::new();
    let mut start: usize = 0;
    let mut i: usize = 0;
    proof {
        assert(s@.subrange(0, 0) =~= Seq::<char>::empty());
        assert(Seq::new(out@.len(), |k: int| out@[k]@) =~= Seq::<Seq<char>>::empty());
    }
    while i < n
        invariant
            n == s@.len(),
            0 <= start <= i <= n,
            forall|j: int| start <= j < i ==> s@[j] != '\n',
            spec_lines(s@) == spec_lines_acc(
                s@,
                i as int,
                s@.subrange(start as int, i as int),
                Seq::new(out@.len(), |k: int| out@[k]@),
            ),
        decreases n - i,
    {
        let c = s.get_char(i);
        if c == '\n' {
            let ghost acc0 = Seq::new(out@.len(), |k: int| out@[k]@);
            let ghost cur0 = s@.subrange(start as int, i as int);
            let mut end = i;
            if end > start && s.get_char(end - 1) == '\r' {
                end = end - 1;
            }
            let line = s.substring_char(start, end);
            proof {
                assert(spec_strip_cr(cur0) =~= s@.subrange(start as int, end as int));
                assert(spec_lines(s@) == spec_lines_acc(
                    s@,
                    i + 1,
                    Seq::<char>::empty(),
                    acc0.push(spec_strip_cr(cur0)),
                ));
            }
            out.push(line.to_owned());
            proof {
                assert(Seq::new(out@.len(), |k: int| out@[k]@) =~= acc0.push(
                    s@.subrange(start as int, end as int),
                ));
                assert(s@.subrange(i + 1, i + 1) =~= Seq::<char>::empty());
            }
            start = i + 1;
        } else {
            proof {
                assert(s@.subrange(start as int, i + 1) =~= s@.subrange(start as int, i as int).push(
                    s@[i as int],
                ));
            }
        }
        i += 1;
    }
    if start < n {
        let line = s.substring_char(start, n);
        out.push(line.to_owned());
        proof {
            assert(Seq::new(out@.len(), |k: int| out@[k]@) =~= Seq::new(
                (out@.len() - 1) as nat,
                |k: int| out@[k]@,
            ).push(s@.subrange(start as int, n as int)));
        }
    } else {
        proof {
            assert(s@.subrange(start as int, n as int).len() == 0);
        }
    }
    proof {
        assert(forall|i: int|
            0 <= i < out@.len() ==> (#[trigger] out@[i])@ == Seq::new(
                out@.len(),
                |k: int| out@[k]@,
            )[i]);
    }
    out
}

/// Trim surrounding whitespace.
pub(crate) fn trim_str<'a>(s: &'a str) -> (r: &'a str)
    ensures
        r@ == spec_trim(s@),
{
    let n = s.unicode_len();
    let mut a: usize = 0;
    while a < n && is_ws(s.get_char(a))
        invariant
            n == s@.len(),
            0 <= a <= n,
            spec_skip_ws(s@, 0) == spec_skip_ws(s@, a as int),
        decreases n - a,
    {
        a += 1;
    }
    let mut b: usize = n;
    proof {
        assert(s@.take(n as int) =~= s@);
    }
    while b > 0 && is_ws(s.get_char(b - 1))
        invariant
            n == s@.len(),
            0 <= b <= n,
            spec_ws_end(s@) == spec_ws_end(s@.take(b as int)),
        decreases b,
    {
        proof {
            assert(s@.take(b as int).drop_last() =~= s@.take(b - 1));
        }
        b -= 1;
    }
    proof {
        if b > 0 {
            assert(spec_ws_end(s@.take(b as int)) == b);
        } else {
            assert(s@.take(0).len() == 0);
        }
        if a < n {
            assert(spec_skip_ws(s@, a as int) == a);
        }
    }
    if a < b {
        let r = s.substring_char(a, b);
        proof {
            assert(r@ =~= spec_trim(s@));
        }
        r
    } else {
        proof {
            reveal_strlit("");
            assert(spec_trim(s@) =~= ""@);
        }
        ""
    }
}

/// Trim surrounding double quotes.
fn trim_quotes<'a>(s: &'a str) -> (r: &'a str)
    ensures
        r@ == spec_trim_quotes(s@),
{
    let n = s.unicode_len();
    let mut a: usize = 0;
    while a < n && s.get_char(a) == '"'
        invariant
            n == s@.len(),
            0 <= a <= n,
            spec_skip_quotes(s@, 0) == spec_skip_quotes(s@, a as int),
        decreases n - a,
    {
        a += 1;
    }
    let mut b: usize = n;
    proof {
        assert(s@.take(n as int) =~= s@);
    }
    while b > 0 && s.get_char(b - 1) == '"'
        invariant
            n == s@.len(),
            0 <= b <= n,
            spec_quote_end(s@) == spec_quote_end(s@.take(b as int)),
        decreases b,
    {
        proof {
            assert(s@.take(b as int).drop_last() =~= s@.take(b - 1));
        }
        b -= 1;
    }
    proof {
        if b > 0 {
            assert(spec_quote_end(s@.take(b as int)) == b);
        } else {
            assert(s@.take(0).len() == 0);
        }
        if a < n {
            assert(spec_skip_quotes(s@, a as int) == a);
        }
    }
    if a < b {
        let r = s.substring_char(a, b);
        proof {
            assert(r@ =~= spec_trim_quotes(s@));
        }
        r
    } else {
        proof {
            reveal_strlit("");
            assert(spec_trim_quotes(s@) =~= ""@);
        }
        ""
    }
}

/// Strip every leading `CONFIG_` prefix.
fn strip_config_prefix<'a>(s: &'a str) -> (r: &'a str)
    ensures
        r@ == spec_strip_config(s@),
    decreases s@.len(),
{
    let n = s.unicode_len();
    if n >= 7 && s.get_char(0) == 'C' && s.get_char(1) == 'O' && s.get_char(2) == 'N' && s.get_char(
        3,
    ) == 'F' && s.get_char(4) == 'I' && s.get_char(5) == 'G' && s.get_char(6) == '_' {
        let rest = s.substring_char(7, n);
        proof {
            assert(rest@ =~= s@.skip(7));
        }
        strip_config_prefix(rest)
    } else {
        s
    }
}

/// Find the first `=`.
pub(crate) fn find_eq(s: &str) -> (r: Option<usize>)
    ensures
        match r {
            Some(p) => spec_find_from(s@, 0, '=') == Some(p as int) && p < s@.len(),
            None => spec_find_from(s@, 0, '=') is None,
        },
{
    let n = s.unicode_len();
    let mut i: usize = 0;
    while i < n
        invariant
            n == s@.len(),
            0 <= i <= n,
            spec_find_from(s@, 0, '=') == spec_find_from(s@, i as int, '='),
        decreases n - i,
    {
        if s.get_char(i) == '=' {
            return Some(i);
        }
        i += 1;
    }
    None
}

/// The exec reading of one line.
enum ParsedLine {
    Skip,
    Invalid,
    Assign { key: String, value: String },
}

fn parse_kline(line: &str) -> (r: ParsedLine)
    ensures
        match spec_parse_kline(line@) {
            KLine::Skip => r is Skip,
            KLine::Invalid => r is Invalid,
            KLine::Assign { key, value } => r matches ParsedLine::Assign { key: k, value: v } && k@
                == key && v@ == value,
        },
{
    let t = trim_str(line);
    let tn = t.unicode_len();
    if tn == 0 || t.get_char(0) == '#' {
        return ParsedLine::Skip;
    }
    match find_eq(t) {
        None => ParsedLine::Invalid,
        Some(p) => {
            let key_raw = t.substring_char(0, p);
            let val_raw = t.substring_char(p + 1, tn);
            proof {
                assert(key_raw@ =~= t@.take(p as int));
                assert(val_raw@ =~= t@.skip(p + 1));
            }
            let key = strip_config_prefix(trim_str(key_raw));
            let value = trim_quotes(trim_str(val_raw));
            ParsedLine::Assign { key: key.to_owned(), value: value.to_owned() }
        },
    }
}

impl KConfig {
    /// Parse a whole source: empty lines and comments are skipped, every
    /// other line must be an assignment, and the first line that is not
    /// refuses the whole source.
    pub fn from_content(filename: String, content: String) -> (r: Result<KConfig, KConfigError>)
        ensures
            match r {
                Ok(k) => {
                    let assigns = spec_assigns_from(spec_lines(content@), 0);
                    &&& k.filename@ == filename@
                    &&& k.assignments@.len() == assigns.len()
                    &&& forall|j: int|
                        0 <= j < assigns.len() ==> (#[trigger] k.assignments@[j]).symbol@ == assigns[
                            j
                        ].0 && k.assignments@[j].value@ == assigns[j].1 && k.assignments@[j].line
                            as int == assigns[j].2
                    &&& forall|i: int|
                        0 <= i < spec_lines(content@).len() ==> !(spec_parse_kline(
                            #[trigger] spec_lines(content@)[i],
                        ) is Invalid)
                },
                Err(KConfigError::InvalidLine { line }) => 1 <= line as int <= spec_lines(
                    content@,
                ).len() && spec_parse_kline(spec_lines(content@)[line - 1]) is Invalid,
            },
    {
        let lines = split_lines(content.as_str());
        let n = lines.len();
        let mut assignments: Vec<Assignment> = Vec::new();
        let ghost ls = spec_lines(content@);
        let mut i: usize = 0;
        while i < n
            invariant
                ls == spec_lines(content@),
                n == ls.len(),
                lines@.len() == n,
                forall|j: int| 0 <= j < n ==> (#[trigger] lines@[j])@ == ls[j],
                0 <= i <= n,
                forall|j: int| 0 <= j < i ==> !(spec_parse_kline(#[trigger] ls[j]) is Invalid),
                spec_assigns_from(ls, 0) == Seq::new(
                    assignments@.len(),
                    |k: int|
                        (assignments@[k].symbol@, assignments@[k].value@, assignments@[k].line as int),
                ) + spec_assigns_from(ls, i as int),
            decreases n - i,
        {
            proof {
                assert((lines@[i as int])@ == ls[i as int]);
            }
            match parse_kline(lines[i].as_str()) {
                ParsedLine::Skip => {},
                ParsedLine::Invalid => {
                    return Err(KConfigError::InvalidLine { line: i + 1 });
                },
                ParsedLine::Assign { key, value } => {
                    assignments.push(Assignment { symbol: key, value, line: i + 1 });
                    proof {
                        assert(spec_assigns_from(ls, 0) =~= Seq::new(
                            assignments@.len(),
                            |k: int|
                                (
                                    assignments@[k].symbol@,
                                    assignments@[k].value@,
                                    assignments@[k].line as int,
                                ),
                        ) + spec_assigns_from(ls, i + 1));
                    }
                },
            }
            i += 1;
        }
        proof {
            assert(spec_assigns_from(ls, n as int) =~= Seq::<(Seq<char>, Seq<char>, int)>::empty());
            assert(spec_assigns_from(ls, 0) =~= Seq::new(
                assignments@.len(),
                |k: int|
                    (assignments@[k].symbol@, assignments@[k].value@, assignments@[k].line as int),
            ));
        }
        Ok(KConfig { filename, assignments })
    }

    /// Apply every assignment against the schema through the tracked
    /// validator, in source order.  A refused assignment is journalled and
    /// the run continues, so a source shows all of its errors at once; a
    /// symbol the schema does not hold stops the run.
    pub fn apply(&self, schema: &mut Schema) -> (r: Result<(), ApplyError>)
        requires
            old(schema).wf(),
        ensures
            final(schema).wf(),
            spec_same_shape(old(schema).symbols@, final(schema).symbols@),
            // success exactly when every assignment names a known symbol
            r is Ok <==> (forall|i: int|
                0 <= i < self.assignments@.len() ==> spec_lookup(
                    old(schema).symbols@,
                    (#[trigger] self.assignments@[i]).symbol@,
                ) is Some),
            // the journal grows by one tracked attempt per assignment, in
            // source order, each carrying the assignment's symbol, source
            // location and intended textual value
            forall|i: int|
                0 <= i < old(schema).history@.len() ==> final(schema).history@[i] == old(
                    schema,
                ).history@[i],
            r is Ok ==> final(schema).history@.len() == old(schema).history@.len()
                + self.assignments@.len(),
            r is Ok ==> forall|i: int|
                0 <= i < self.assignments@.len() ==> spec_applied_record(
                    final(schema).history@[old(schema).history@.len() + i],
                    #[trigger] self.assignments@[i],
                    self.filename@,
                ),
            // the appended records and the final arena are those of the
            // tracked validator applied to each assignment in order
            r is Ok ==> exists|states: Seq<Seq<Symbol>>|
                #[trigger] spec_apply_trace(
                    old(schema).symbols@,
                    self.assignments@,
                    self.filename@,
                    final(schema).history@.skip(old(schema).history@.len() as int),
                    states,
                ) && states[self.assignments@.len() as int] == final(schema).symbols@,
            r is Err ==> exists|k: int, states: Seq<Seq<Symbol>>|
                0 <= k <= self.assignments@.len() && final(schema).history@.len() == old(
                    schema,
                ).history@.len() + k && #[trigger] spec_apply_trace(
                    old(schema).symbols@,
                    self.assignments@.take(k),
                    self.filename@,
                    final(schema).history@.skip(old(schema).history@.len() as int),
                    states,
                ) && states[k] == final(schema).symbols@,
            // the failure names the offending assignment
            r matches Err(ApplyError::UnknownSymbol { symbol, line }) ==> exists|i: int|
                0 <= i < self.assignments@.len() && symbol@ == (
                #[trigger] self.assignments@[i]).symbol@ && line == self.assignments@[i].line
                    && spec_lookup(old(schema).symbols@, self.assignments@[i].symbol@) is None,
    {
        let ghost syms0 = old(schema).symbols@;
        let ghost h0 = old(schema).history@;
        let ghost mut states: Seq<Seq<Symbol>> = seq![syms0];
        let n = self.assignments.len();
        let mut i: usize = 0;
        while i < n
            invariant
                schema.wf(),
                syms0 == old(schema).symbols@,
                h0 == old(schema).history@,
                n == self.assignments@.len(),
                0 <= i <= n,
                spec_same_shape(syms0, schema.symbols@),
                schema.history@.len() == h0.len() + i,
                forall|j: int| 0 <= j < h0.len() ==> schema.history@[j] == h0[j],
                states.len() == i + 1,
                states[0] == syms0,
                states[i as int] == schema.symbols@,
                spec_apply_trace(
                    syms0,
                    self.assignments@.take(i as int),
                    self.filename@,
                    schema.history@.skip(h0.len() as int),
                    states,
                ),
                forall|j: int|
                    0 <= j < i ==> spec_lookup(
                        syms0,
                        (#[trigger] self.assignments@[j]).symbol@,
                    ) is Some,
                forall|j: int|
                    0 <= j < i ==> spec_applied_record(
                        schema.history@[h0.len() + j],
                        #[trigger] self.assignments@[j],
                        self.filename@,
                    ),
            decreases n - i,
        {
            let a = &self.assignments[i];
            match schema.symbol(a.symbol.as_str()) {
                Some(id) => {
                    proof {
                        lemma_lookup_frame(syms0, schema.symbols@, a.symbol@, 0);
                    }
                    let line32: u32 = if a.line > 0xffff_ffff {
                        0xffff_ffff
                    } else {
                        a.line as u32
                    };
                    let ghost sy_pre = schema.symbols@;
                    let ghost h_pre = schema.history@;
                    let v_arg = SymbolValue::Auto(a.value.clone());
                    let ghost vg = v_arg;
                    // a refusal is recorded on the transaction; the run
                    // continues so every error is seen in one pass
                    let _outcome = schema.set_value_tracked(
                        id,
                        v_arg,
                        self.filename.clone(),
                        line32,
                        None,
                    );
                    proof {
                        assert(spec_same_shape(syms0, schema.symbols@));
                        assert(schema.history@.last().symbol@ == sy_pre[id as int].spec_name_chars());
                        assert(spec_applied_record(
                            schema.history@[h0.len() + i],
                            self.assignments@[i as int],
                            self.filename@,
                        ));
                        // this iteration is one tracked step
                        let tx = schema.history@.last();
                        assert(spec_tracked_outcome(sy_pre, id as int, vg, schema.symbols@, tx));
                        assert(vg matches SymbolValue::Auto(t2) && t2@ == self.assignments@[
                            i as int
                        ].value@);
                        assert(spec_apply_step(
                            sy_pre,
                            self.assignments@[i as int],
                            self.filename@,
                            schema.symbols@,
                            tx,
                        ));
                        // extend the trace
                        let ghost states0 = states;
                        states = states.push(schema.symbols@);
                        assert(self.assignments@.take(i + 1).drop_last() =~= self.assignments@.take(
                            i as int,
                        ));
                        assert(self.assignments@.take(i + 1)[i as int] == self.assignments@[
                            i as int
                        ]);
                        let suffix = schema.history@.skip(h0.len() as int);
                        let ghost old_suffix = h_pre.skip(h0.len() as int);
                        assert(suffix.len() == i + 1);
                        assert forall|j: int| 0 <= j < i implies suffix[j] == old_suffix[j] by {
                            assert(schema.history@[h0.len() + j] == h_pre[h0.len() + j]);
                        }
                        assert(suffix[i as int] == tx);
                        assert forall|j: int|
                            0 <= j < i + 1 implies spec_apply_step(
                            states[j],
                            #[trigger] self.assignments@.take(i + 1)[j],
                            self.filename@,
                            states[j + 1],
                            suffix[j],
                        ) by {
                            if j < i {
                                assert(states[j] == states0[j] && states[j + 1] == states0[j + 1]);
                                assert(self.assignments@.take(i as int)[j] == self.assignments@.take(
                                    i + 1,
                                )[j]);
                                assert(suffix[j] == old_suffix[j]);
                            } else {
                                assert(states[j] == sy_pre && states[j + 1] == schema.symbols@);
                            }
                        }
                        assert(spec_apply_trace(
                            syms0,
                            self.assignments@.take(i + 1),
                            self.filename@,
                            suffix,
                            states,
                        ));
                    }
                },
                None => {
                    proof {
                        lemma_lookup_frame(syms0, schema.symbols@, a.symbol@, 0);
                        assert(spec_apply_trace(
                            syms0,
                            self.assignments@.take(i as int),
                            self.filename@,
                            schema.history@.skip(h0.len() as int),
                            states,
                        ));
                    }
                    return Err(
                        ApplyError::UnknownSymbol { symbol: a.symbol.clone(), line: a.line },
                    );
                },
            }
            i += 1;
        }
        proof {
            assert(self.assignments@.take(n as int) =~= self.assignments@);
            assert(spec_apply_trace(
                syms0,
                self.assignments@,
                self.filename@,
                schema.history@.skip(h0.len() as int),
                states,
            ));
        }
        Ok(())
    }
}

} // verus!
