use vstd::prelude::*;
use vstd::string::StrSliceExecFns;
use vstd::utf8::encode_utf8;
use crate::context::Context;
use crate::node::{convertible, converts, same_text, yaml_to_json, Canonical, Node};
use crate::payload::{is_json, parse_json};

verus! {

/// One data row of a CSV file bound to a templated step. Run by a worker
/// whose identity is `idx`, it stores the row's `txn` payload under
/// `assigned_var_key`.
pub struct OneCsvLine {
    pub idx: usize,
    pub csv_rows_size: usize,
    pub csv_line: Option<Canonical>,
    pub assigned_var_key: Option<String>,
}

/// What one run of a row-bound step did.
#[derive(PartialEq, Eq, Structural, Clone, Copy, Debug)]
pub enum Outcome {
    /// The step holds no row or no key, or the context names no worker.
    Skipped,
    /// The row belongs to another worker.
    NotMine,
    /// The row's payload was stored in the context.
    Assigned,
    /// The worker identity, greater than the number of rows.
    TooManyUsers(usize),
    /// The context's `concurrency` is not an unsigned integer in text.
    BadConcurrency,
    /// The row has no `txn` string.
    BadPayload,
}

/// Why a template does not expand into row-bound steps.
#[derive(PartialEq, Eq, Structural, Clone, Copy, Debug)]
pub enum ExpandError {
    /// `with_one_item_from_csv` is neither a string nor a mapping.
    MissingDirective,
    /// The mapping form has no `file_name` string.
    MissingFileName,
    /// `quote_char` is the empty string.
    InvalidQuoteChar,
    /// A row has no canonical value.
    Unrepresentable,
}

/// Where the rows of an expansion come from.
pub struct CsvSource {
    pub file_name: String,
    pub quote_char: u8,
    pub csv_row: i64,
}

/// The path of the file `name` in the directory of the file `parent`.
pub uninterp spec fn sibling_of(parent: Seq<char>, name: Seq<char>) -> Seq<char>;

/// Relies on std::path::Path::with_file_name: the path `parent` with its
/// last component replaced by `name`.
#[verifier::external_body]
pub(crate) fn sibling_path(parent: &str, name: &str) -> (r: String)
    ensures
        r@ == sibling_of(parent@, name@),
{
    std::path::Path::new(parent).with_file_name(name).to_string_lossy().into_owned()
}

/// The value of a text of decimal digits.
pub open spec fn digits_value(s: Seq<char>) -> int
    decreases s.len(),
{
    if s.len() == 0 {
        0
    } else {
        digits_value(s.drop_last()) * 10 + (s.last() as int - '0' as int)
    }
}

/// The text after an optional leading `+`.
pub open spec fn unsigned_part(s: Seq<char>) -> Seq<char> {
    if s.len() > 0 && s[0] == '+' {
        s.drop_first()
    } else {
        s
    }
}

/// Every character of the text is a decimal digit.
pub open spec fn all_digits(d: Seq<char>) -> bool {
    forall|i: int| 0 <= i < d.len() ==> '0' <= #[trigger] d[i] <= '9'
}

/// The unsigned integer that a text writes: an optional `+`, then one or
/// more decimal digits, of a value that fits.
pub open spec fn usize_of(s: Seq<char>) -> Option<usize> {
    let d = unsigned_part(s);
    if d.len() > 0 && all_digits(d) && digits_value(d) <= usize::MAX {
        Some(digits_value(d) as usize)
    } else {
        None
    }
}

/// A text of decimal digits is worth at least each of its prefixes.
proof fn lemma_digits_prefix(d: Seq<char>, j: int, k: int)
    requires
        0 <= j <= k <= d.len(),
        all_digits(d),
    ensures
        digits_value(d.subrange(0, j)) <= digits_value(d.subrange(0, k)),
        0 <= digits_value(d.subrange(0, j)),
    decreases k,
{
    if k > j {
        lemma_digits_prefix(d, j, k - 1);
        assert(d.subrange(0, k).drop_last() =~= d.subrange(0, k - 1));
    } else if j > 0 {
        lemma_digits_prefix(d, j - 1, j - 1);
        assert(d.subrange(0, j).drop_last() =~= d.subrange(0, j - 1));
    } else {
        assert(d.subrange(0, 0).len() == 0);
    }
}

/// Reads a worker identity: an optional `+`, then decimal digits, of a
/// value that fits in a `usize`.
pub fn parse_usize(s: &str) -> (r: Option<usize>)
    ensures
        r == usize_of(s@),
{
    let n = s.unicode_len();
    let start: usize = if n > 0 && s.get_char(0) == '+' { 1 } else { 0 };
    let ghost d = unsigned_part(s@);
    assert(d =~= s@.subrange(start as int, s@.len() as int));
    if start == n {
        return None;
    }
    let mut acc: usize = 0;
    let mut i: usize = start;
    while i < n
        invariant
            start <= i <= n,
            n == s@.len(),
            d =~= s@.subrange(start as int, n as int),
            d == unsigned_part(s@),
            forall|m: int| 0 <= m < i - start ==> '0' <= #[trigger] d[m] <= '9',
            acc == digits_value(d.subrange(0, i - start)),
        decreases n - i,
    {
        let c = s.get_char(i);
        if c < '0' || c > '9' {
            assert(!('0' <= d[i - start] <= '9'));
            assert(!all_digits(d));
            return None;
        }
        let digit = ((c as u32) - ('0' as u32)) as usize;
        proof {
            assert(d[i - start] == c);
            assert(d.subrange(0, i - start + 1).drop_last() =~= d.subrange(0, i - start));
            assert(digits_value(d.subrange(0, i - start + 1)) == acc * 10 + digit);
        }
        if acc > (usize::MAX - digit) / 10 {
            proof {
                let m = usize::MAX as int;
                let a = acc as int;
                let g = digit as int;
                assert(a * 10 + g > m) by (nonlinear_arith)
                    requires
                        a > (m - g) / 10,
                        0 <= g <= 9,
                        m > 9,
                ;
                assert(digits_value(d.subrange(0, i - start + 1)) > usize::MAX);
                if all_digits(d) {
                    lemma_digits_prefix(d, i - start + 1, d.len() as int);
                    assert(d.subrange(0, d.len() as int) =~= d);
                }
                assert(usize_of(s@) is None);
            }
            return None;
        }
        acc = acc * 10 + digit;
        i = i + 1;
    }
    proof {
        assert(d.subrange(0, d.len() as int) =~= d);
    }
    Some(acc)
}

/// The value under `key` of a mapping's entries (its first such entry).
pub open spec fn field_of(es: Seq<(String, Canonical)>, key: Seq<char>) -> Option<Canonical> {
    if exists|i: int| 0 <= i < es.len() && #[trigger] es[i].0@ == key {
        Some(es[choose|i: int| 0 <= i < es.len() && #[trigger] es[i].0@ == key && forall|j: int|
            0 <= j < i ==> (#[trigger] es[j]).0@ != key].1)
    } else {
        None
    }
}

/// The serialized payload of a row: its `txn` string.
pub open spec fn payload_text(row: Canonical) -> Option<Seq<char>> {
    match row {
        Canonical::Object(es) => match field_of(es@, "txn"@) {
            Some(Canonical::Str(t)) => Some(t@),
            _ => None,
        },
        _ => None,
    }
}

/// The worker identity that a context holds, if it holds one: `None` where
/// it names none, `Some(None)` where its `concurrency` is no unsigned integer.
pub open spec fn worker_of(ctx: Context) -> Option<Option<usize>> {
    match ctx.lookup("concurrency"@) {
        None => None,
        Some(Canonical::Str(s)) => Some(usize_of(s@)),
        Some(_) => Some(None),
    }
}

/// The value stored for a payload as parsed: the document, or null where
/// the text was no JSON.
pub fn payload_value(parsed: Result<serde_json::Value, serde_json::Error>) -> (r: Canonical)
    ensures
        parsed is Ok ==> r == Canonical::Parsed(parsed->Ok_0),
        parsed is Err ==> r == Canonical::Null,
{
    match parsed {
        Ok(v) => Canonical::Parsed(v),
        Err(_) => Canonical::Null,
    }
}

fn field<'a>(es: &'a Vec<(String, Canonical)>, key: &str) -> (r: Option<&'a Canonical>)
    ensures
        match r {
            Some(v) => field_of(es@, key@) == Some(*v),
            None => field_of(es@, key@) is None,
        },
{
    let mut i: usize = 0;
    while i < es.len()
        invariant
            0 <= i <= es@.len(),
            forall|j: int| 0 <= j < i ==> (#[trigger] es@[j]).0@ != key@,
        decreases es.len() - i,
    {
        if same_text(&es[i].0, key) {
            proof {
                let c = choose|c: int| 0 <= c < es@.len() && #[trigger] es@[c].0@ == key@ && forall|j: int|
                    0 <= j < c ==> (#[trigger] es@[j]).0@ != key@;
                assert(c == i) by {
                    if c < i {
                        assert(es@[c].0@ != key@);
                    } else if c > i {
                        assert(es@[i as int].0@ != key@);
                    }
                }
            }
            return Some(&es[i].1);
        }
        i = i + 1;
    }
    None
}

fn txn_text(row: &Canonical) -> (r: Option<&String>)
    ensures
        match r {
            Some(t) => payload_text(*row) == Some(t@),
            None => payload_text(*row) is None,
        },
{
    match row {
        Canonical::Object(es) => match field(es, "txn") {
            Some(Canonical::Str(t)) => Some(t),
            _ => None,
        },
        _ => None,
    }
}

/// A run of `step` turns the context `before` into `after`: where it
/// assigns, `after` holds the parsed payload (null where the payload is no
/// JSON) under the step's key and agrees with `before` on every other key;
/// any other outcome leaves the context as it was.
pub open spec fn runs(step: OneCsvLine, before: Context, after: Context) -> bool {
    if step.decision(before) == Outcome::Assigned {
        let key = step.assigned_var_key->Some_0@;
        let text = payload_text(step.csv_line->Some_0)->Some_0;
        &&& after.lookup(key) matches Some(v)
        &&& (is_json(text) ==> v is Parsed)
        &&& (!is_json(text) ==> v == Canonical::Null)
        &&& forall|k: Seq<char>| k != key ==> #[trigger] after.lookup(k) == before.lookup(k)
    } else {
        after == before
    }
}

impl OneCsvLine {
    /// A row-bound step for row `idx` of `csv_rows_size`, storing under the
    /// template's `assign` string, if it has one.
    pub fn new(idx: usize, csv_rows_size: usize, item: &Node, _with_item: Option<Canonical>) -> (r: OneCsvLine)
        ensures
            r.idx == idx,
            r.csv_rows_size == csv_rows_size,
            r.csv_line == _with_item,
            match item.spec_get("assign"@) {
                Some(Node::Str(s)) => r.assigned_var_key is Some && r.assigned_var_key->Some_0@ == s@,
                _ => r.assigned_var_key is None,
            },
    {
        let assign = match item.get("assign") {
            Some(Node::Str(s)) => Some(s.clone()),
            _ => None,
        };
        OneCsvLine { idx, csv_rows_size, csv_line: _with_item, assigned_var_key: assign }
    }

    /// What a run of the step against `ctx` does.
    pub open spec fn decision(self, ctx: Context) -> Outcome {
        if self.csv_line is None || self.assigned_var_key is None {
            Outcome::Skipped
        } else {
            match worker_of(ctx) {
                None => Outcome::Skipped,
                Some(None) => Outcome::BadConcurrency,
                Some(Some(w)) => if w > self.csv_rows_size {
                    Outcome::TooManyUsers(w)
                } else if w != self.idx {
                    Outcome::NotMine
                } else if payload_text(self.csv_line->Some_0) is None {
                    Outcome::BadPayload
                } else {
                    Outcome::Assigned
                },
            }
        }
    }

    /// Runs the step: where the context's worker identity is this row's,
    /// stores the row's parsed `txn` payload under the step's key (null where
    /// the payload is no JSON). Any other outcome leaves the context as it was.
    pub fn execute(&self, context: &mut Context) -> (r: Outcome)
        requires
            old(context).wf(),
        ensures
            final(context).wf(),
            r == self.decision(*old(context)),
            runs(*self, *old(context), *final(context)),
    {
        let row = match &self.csv_line {
            Some(row) => row,
            None => return Outcome::Skipped,
        };
        let key = match &self.assigned_var_key {
            Some(key) => key,
            None => return Outcome::Skipped,
        };
        let w = match context.get("concurrency") {
            None => return Outcome::Skipped,
            Some(Canonical::Str(s)) => match parse_usize(s.as_str()) {
                Some(w) => w,
                None => return Outcome::BadConcurrency,
            },
            Some(_) => return Outcome::BadConcurrency,
        };
        if w > self.csv_rows_size {
            return Outcome::TooManyUsers(w);
        }
        if w != self.idx {
            return Outcome::NotMine;
        }
        let text = match txn_text(row) {
            Some(t) => t,
            None => return Outcome::BadPayload,
        };
        let parsed = parse_json(text.as_str());
        let value = payload_value(parsed);
        context.insert(key.clone(), value);
        Outcome::Assigned
    }
}

/// The template node is a CSV expansion: its `with_one_item_from_csv` is a
/// string or a mapping.
pub fn is_that_you(item: &Node) -> (r: bool)
    ensures
        r == (item.spec_get("with_one_item_from_csv"@) matches Some(Node::Str(_))
            || item.spec_get("with_one_item_from_csv"@) matches Some(Node::Hash(_))),
{
    match item.get("with_one_item_from_csv") {
        Some(Node::Str(_)) => true,
        Some(Node::Hash(_)) => true,
        _ => false,
    }
}

/// An integer node's value; zero for anything else or nothing.
pub open spec fn int_or_zero(n: Option<Node>) -> int {
    match n {
        Some(Node::Integer(i)) => i as int,
        _ => 0,
    }
}

/// The quote character that a `quote_char` node gives: `"` where it is no
/// string, the first byte of its UTF-8 form otherwise.
pub open spec fn quote_of(q: Option<Node>) -> Result<u8, ExpandError> {
    match q {
        Some(Node::Str(s)) => if encode_utf8(s@).len() > 0 {
            Ok(encode_utf8(s@)[0])
        } else {
            Err(ExpandError::InvalidQuoteChar)
        },
        _ => Ok(34u8),
    }
}

/// The file, quote character and row that a template's
/// `with_one_item_from_csv` names, the file resolved against `parent`.
pub open spec fn source_of(parent: Seq<char>, item: Node) -> Result<(Seq<char>, u8, int), ExpandError> {
    match item.spec_get("with_one_item_from_csv"@) {
        Some(Node::Str(p)) => Ok((sibling_of(parent, p@), 34u8, 0int)),
        Some(Node::Hash(es)) => {
            let d = Node::Hash(es);
            match d.spec_get("file_name"@) {
                Some(Node::Str(f)) => match quote_of(d.spec_get("quote_char"@)) {
                    Ok(q) => Ok((sibling_of(parent, f@), q, int_or_zero(d.spec_get("csv-row-to-assign"@)))),
                    Err(e) => Err(e),
                },
                _ => Err(ExpandError::MissingFileName),
            }
        },
        _ => Err(ExpandError::MissingDirective),
    }
}

fn quote_char(q: Option<&Node>) -> (r: Result<u8, ExpandError>)
    ensures
        r == quote_of(match q { Some(n) => Some(*n), None => None }),
{
    match q {
        Some(Node::Str(s)) => {
            let b = s.as_str().as_bytes();
            if b.len() == 0 {
                Err(ExpandError::InvalidQuoteChar)
            } else {
                Ok(b[0])
            }
        },
        _ => Ok(34u8),
    }
}

/// Reads a template's `with_one_item_from_csv`: a file name alone, or a
/// mapping with `file_name`, and optionally `quote_char` and
/// `csv-row-to-assign`. The file is taken from the directory of the
/// scenario file `parent_path`.
pub fn csv_source(parent_path: &str, item: &Node) -> (r: Result<CsvSource, ExpandError>)
    ensures
        match source_of(parent_path@, *item) {
            Ok((f, q, c)) => r is Ok && r->Ok_0.file_name@ == f && r->Ok_0.quote_char == q
                && r->Ok_0.csv_row == c,
            Err(e) => r is Err && r->Err_0 == e,
        },
{
    match item.get("with_one_item_from_csv") {
        Some(Node::Str(p)) => Ok(CsvSource {
            file_name: sibling_path(parent_path, p.as_str()),
            quote_char: 34u8,
            csv_row: 0,
        }),
        Some(d) => {
            if !d.is_hash() {
                return Err(ExpandError::MissingDirective);
            }
            let f = match d.get("file_name") {
                Some(Node::Str(f)) => f,
                _ => return Err(ExpandError::MissingFileName),
            };
            let q = match quote_char(d.get("quote_char")) {
                Ok(q) => q,
                Err(e) => return Err(e),
            };
            let c = match d.get("csv-row-to-assign") {
                Some(n) => match n.as_i64() {
                    Some(c) => c,
                    None => 0,
                },
                None => 0,
            };
            Ok(CsvSource { file_name: sibling_path(parent_path, f.as_str()), quote_char: q, csv_row: c })
        },
        None => Err(ExpandError::MissingDirective),
    }
}

/// Appends to `list` one row-bound step per row, in order: step `i` holds
/// the canonical value of row `i`, knows the number of rows, and stores
/// under the template's `assign` string. Where a row has no canonical
/// value, nothing is appended.
pub fn expand(item: &Node, rows: &Vec<Node>, list: &mut Vec<OneCsvLine>) -> (r: Result<(), ExpandError>)
    ensures
        r is Ok <==> forall|i: int| 0 <= i < rows@.len() ==> convertible(#[trigger] rows@[i]),
        r is Err ==> r->Err_0 == ExpandError::Unrepresentable && final(list)@ == old(list)@,
        r is Ok ==> final(list)@.len() == old(list)@.len() + rows@.len(),
        r is Ok ==> forall|j: int| 0 <= j < old(list)@.len() ==> #[trigger] final(list)@[j] == old(list)@[j],
        r is Ok ==> forall|i: int| 0 <= i < rows@.len() ==> {
            let a = #[trigger] final(list)@[old(list)@.len() + i];
            &&& a.idx == i
            &&& a.csv_rows_size == rows@.len()
            &&& a.csv_line matches Some(v) && converts(rows@[i], v)
            &&& match item.spec_get("assign"@) {
                Some(Node::Str(s)) => a.assigned_var_key is Some && a.assigned_var_key->Some_0@ == s@,
                _ => a.assigned_var_key is None,
            }
        },
{
    // Rows are converted from the last one back, so that popping the values
    // hands them out from the first row on.
    let mut values: Vec<Canonical> = Vec::new();
    let mut i: usize = 0;
    while i < rows.len()
        invariant
            0 <= i <= rows@.len(),
            values@.len() == i,
            forall|j: int| rows@.len() - i <= j < rows@.len() ==> convertible(#[trigger] rows@[j]),
            forall|m: int| 0 <= m < i ==> converts(rows@[rows@.len() - 1 - m], #[trigger] values@[m]),
        decreases rows.len() - i,
    {
        match yaml_to_json(&rows[rows.len() - 1 - i]) {
            Ok(v) => values.push(v),
            Err(_) => return Err(ExpandError::Unrepresentable),
        }
        i = i + 1;
    }
    let n = rows.len();
    let ghost start = list@.len();
    let ghost before = list@;
    let mut k: usize = 0;
    while values.len() > 0
        invariant
            0 <= k <= n,
            n == rows@.len(),
            values@.len() == n - k,
            forall|j: int| 0 <= j < n ==> convertible(#[trigger] rows@[j]),
            forall|m: int| 0 <= m < n - k ==> converts(rows@[n - 1 - m], #[trigger] values@[m]),
            list@.len() == start + k,
            forall|j: int| 0 <= j < start ==> #[trigger] list@[j] == before[j],
            forall|j: int| 0 <= j < k ==> {
                let a = #[trigger] list@[start + j];
                &&& a.idx == j
                &&& a.csv_rows_size == n
                &&& a.csv_line matches Some(v) && converts(rows@[j], v)
                &&& match item.spec_get("assign"@) {
                    Some(Node::Str(s)) => a.assigned_var_key is Some && a.assigned_var_key->Some_0@ == s@,
                    _ => a.assigned_var_key is None,
                }
            },
        decreases values.len(),
    {
        proof {
            assert(converts(rows@[k as int], values@[n - 1 - k]));
            assert(values@.last() == values@[n - 1 - k]);
        }
        let v = values.pop().unwrap();
        list.push(OneCsvLine::new(k, n, item, Some(v)));
        k = k + 1;
    }
    Ok(())
}

/// Steps as one expansion makes them: step `i` holds a row, a key, its
/// index `i` and the number of steps.
pub open spec fn one_expansion(steps: Seq<OneCsvLine>) -> bool {
    forall|i: int| 0 <= i < steps.len() ==> {
        &&& (#[trigger] steps[i]).idx == i
        &&& steps[i].csv_rows_size == steps.len()
        &&& steps[i].csv_line is Some
        &&& steps[i].assigned_var_key is Some
    }
}

/// For a worker below the number of rows, of the steps of one expansion
/// only the one with the worker's index acts: every other leaves the
/// context alone, and that one stores its payload where it has one.
pub proof fn lemma_one_row_per_worker(steps: Seq<OneCsvLine>, ctx: Context, w: usize)
    requires
        one_expansion(steps),
        worker_of(ctx) == Some(Some(w)),
        w < steps.len(),
    ensures
        forall|i: int| 0 <= i < steps.len() && i != w ==> (#[trigger] steps[i]).decision(ctx) == Outcome::NotMine,
        steps[w as int].decision(ctx) == Outcome::Assigned
            <==> payload_text(steps[w as int].csv_line->Some_0) is Some,
        steps[w as int].decision(ctx) == Outcome::Assigned || steps[w as int].decision(ctx) == Outcome::BadPayload,
{
    assert(steps[w as int].idx == w);
}

/// A step that stores under a key other than `concurrency` leaves the
/// worker identity as it was, so the steps after it in one run see the same
/// worker.
pub proof fn lemma_assignment_keeps_worker(before: Context, after: Context, key: Seq<char>)
    requires
        key != "concurrency"@,
        forall|k: Seq<char>| k != key ==> #[trigger] after.lookup(k) == before.lookup(k),
    ensures
        worker_of(after) == worker_of(before),
{
    assert(after.lookup("concurrency"@) == before.lookup("concurrency"@));
}

proof fn lemma_worker_kept(steps: Seq<OneCsvLine>, ctxs: Seq<Context>, w: usize, i: int)
    requires
        ctxs.len() == steps.len() + 1,
        forall|j: int| 0 <= j < steps.len() ==> runs(#[trigger] steps[j], ctxs[j], ctxs[j + 1]),
        forall|j: int| 0 <= j < steps.len() ==> (#[trigger] steps[j]).assigned_var_key->Some_0@ != "concurrency"@,
        worker_of(ctxs[0]) == Some(Some(w)),
        0 <= i <= steps.len(),
    ensures
        worker_of(ctxs[i]) == Some(Some(w)),
    decreases i,
{
    if i > 0 {
        lemma_worker_kept(steps, ctxs, w, i - 1);
        let s = steps[i - 1];
        assert(runs(s, ctxs[i - 1], ctxs[i]));
        if s.decision(ctxs[i - 1]) == Outcome::Assigned {
            lemma_assignment_keeps_worker(ctxs[i - 1], ctxs[i], s.assigned_var_key->Some_0@);
        }
    }
}

/// Running all the steps of one expansion in order, `ctxs[i]` being the
/// context before step `i`, for a worker below the number of rows and a key
/// other than `concurrency`: every step but the one with the worker's index
/// finds the row is not its own and leaves the context as it was; that one
/// stores its payload where the row has one; no step refuses the worker.
pub proof fn lemma_sequential_run(steps: Seq<OneCsvLine>, ctxs: Seq<Context>, w: usize)
    requires
        one_expansion(steps),
        ctxs.len() == steps.len() + 1,
        forall|i: int| 0 <= i < steps.len() ==> runs(#[trigger] steps[i], ctxs[i], ctxs[i + 1]),
        forall|i: int| 0 <= i < steps.len() ==> (#[trigger] steps[i]).assigned_var_key->Some_0@ != "concurrency"@,
        worker_of(ctxs[0]) == Some(Some(w)),
        w < steps.len(),
    ensures
        forall|i: int| 0 <= i < steps.len() && i != w ==>
            (#[trigger] steps[i]).decision(ctxs[i]) == Outcome::NotMine && ctxs[i + 1] == ctxs[i],
        steps[w as int].decision(ctxs[w as int]) == Outcome::Assigned
            <==> payload_text(steps[w as int].csv_line->Some_0) is Some,
        steps[w as int].decision(ctxs[w as int]) == Outcome::Assigned
            || steps[w as int].decision(ctxs[w as int]) == Outcome::BadPayload,
{
    assert forall|i: int| 0 <= i < steps.len() && i != w implies
        (#[trigger] steps[i]).decision(ctxs[i]) == Outcome::NotMine && ctxs[i + 1] == ctxs[i] by {
        lemma_worker_kept(steps, ctxs, w, i);
        assert(runs(steps[i], ctxs[i], ctxs[i + 1]));
    }
    lemma_worker_kept(steps, ctxs, w, w as int);
    assert(steps[w as int].idx == w);
}

/// A worker above the number of rows is refused by every step of one
/// expansion.
pub proof fn lemma_too_many_workers(steps: Seq<OneCsvLine>, ctx: Context, w: usize)
    requires
        one_expansion(steps),
        worker_of(ctx) == Some(Some(w)),
        w > steps.len(),
    ensures
        forall|i: int| 0 <= i < steps.len() ==> (#[trigger] steps[i]).decision(ctx) == Outcome::TooManyUsers(w),
{
}

} // verus!
