//! The effective configuration, after merging and validation.
//!
//! Everything here is concrete. Every framework key has a value and every
//! declared parameter is present, whether the user mentioned it or not.

use core::ops::Range;

use vstd::prelude::*;

use crate::config::diagnostics::{line_col, placed, span_locatable, spec_line_col, DiagnosticModel};
use crate::config::globals::Globals;
use crate::config::params::CopParams;
use crate::config::spec::{CopDecl, ParamValue};
use crate::keyed::{lookup, TextMap};
use crate::linter::cop::{category_name, Category};
use crate::linter::finding::Severity;
use crate::text::{borrow_all, chars_of, concat2, concat3, decimal, join, join_strs, to_decimal};

verus! {

/// The severity names accepted in a configuration file.
pub fn severity_names() -> (res: &'static [&'static str])
    ensures
        res@.len() == 3,
        res@[0]@ == "info"@,
        res@[1]@ == "warning"@,
        res@[2]@ == "error"@,
{
    let names: &'static [&'static str] = &["info", "warning", "error"];
    names
}

/// The name of a severity as written in a configuration file.
pub open spec fn spec_severity_name(s: Severity) -> Seq<char> {
    match s {
        Severity::Info => "info"@,
        Severity::Warning => "warning"@,
        Severity::Error => "error"@,
    }
}

/// ASCII lower-casing of one character.
pub open spec fn ascii_lower(c: char) -> char {
    if 'A' <= c && c <= 'Z' {
        (((c as u32) + 32) as u8) as char
    } else {
        c
    }
}

/// ASCII lower-casing of text; other characters are left alone.
pub open spec fn ascii_lowercase(s: Seq<char>) -> Seq<char> {
    s.map_values(|c: char| ascii_lower(c))
}

/// The severity named by `name`, ignoring ASCII case.
pub open spec fn spec_parse_severity(name: Seq<char>) -> Option<Severity> {
    let lower = ascii_lowercase(name);
    if lower == "info"@ {
        Some(Severity::Info)
    } else if lower == "warning"@ {
        Some(Severity::Warning)
    } else if lower == "error"@ {
        Some(Severity::Error)
    } else {
        None
    }
}

/// Lower-casing a character twice is lower-casing it once.
proof fn lemma_ascii_lower_idempotent(c: char)
    ensures
        ascii_lower(ascii_lower(c)) == ascii_lower(c),
{
    if 'A' <= c && c <= 'Z' {
        let u = c as u32;
        assert(65 <= u <= 90);
        let b = (u + 32) as u8;
        assert(b == u + 32);
        let l = b as char;
        assert(l as u32 == b as u32);
    }
}

/// Lower-case names are their own lower-casing.
proof fn lemma_lowercase_names()
    ensures
        ascii_lowercase("info"@) == "info"@,
        ascii_lowercase("warning"@) == "warning"@,
        ascii_lowercase("error"@) == "error"@,
{
    reveal_strlit("info");
    reveal_strlit("warning");
    reveal_strlit("error");
    assert(ascii_lowercase("info"@) =~= "info"@);
    assert(ascii_lowercase("warning"@) =~= "warning"@);
    assert(ascii_lowercase("error"@) =~= "error"@);
}

/// Every severity's name parses back to that severity.
pub proof fn severity_names_round_trip(severity: Severity)
    ensures
        spec_parse_severity(spec_severity_name(severity)) == Some(severity),
{
    lemma_lowercase_names();
    reveal_strlit("info");
    reveal_strlit("warning");
    reveal_strlit("error");
    assert("info"@.len() != "warning"@.len() && "info"@.len() != "error"@.len());
    assert("warning"@.len() != "error"@.len());
}

/// Parsing a severity name ignores ASCII case: a name parses as its
/// lower-casing does.
pub proof fn severity_parsing_ignores_case(name: Seq<char>)
    ensures
        spec_parse_severity(ascii_lowercase(name)) == spec_parse_severity(name),
{
    assert forall|i: int| 0 <= i < name.len() implies #[trigger] ascii_lowercase(ascii_lowercase(name))[i]
        == ascii_lowercase(name)[i] by {
        lemma_ascii_lower_idempotent(name[i]);
    }
    assert(ascii_lowercase(ascii_lowercase(name)) =~= ascii_lowercase(name));
}

fn lower_char(c: char) -> (res: char)
    ensures
        res == ascii_lower(c),
{
    if 'A' <= c && c <= 'Z' {
        let b = ((c as u32) + 32) as u8;
        b as char
    } else {
        c
    }
}

fn chars_eq(a: &Vec<char>, b: &Vec<char>) -> (res: bool)
    ensures
        res == (a@ == b@),
{
    if a.len() != b.len() {
        return false;
    }
    let mut i: usize = 0;
    while i < a.len()
        invariant
            a@.len() == b@.len(),
            i <= a@.len(),
            forall|k: int| 0 <= k < i ==> a@[k] == b@[k],
        decreases a@.len() - i,
    {
        if a[i] != b[i] {
            return false;
        }
        i = i + 1;
    }
    assert(a@ =~= b@);
    true
}

/// Parse a severity name as written in a configuration file, ignoring ASCII
/// case.
pub fn parse_severity(name: &str) -> (res: Option<Severity>)
    ensures
        res == spec_parse_severity(name@),
{
    let chars = chars_of(name);
    let mut lower: Vec<char> = Vec::new();
    let mut i: usize = 0;
    while i < chars.len()
        invariant
            chars@ == name@,
            i <= chars@.len(),
            lower@ =~= ascii_lowercase(name@).take(i as int),
        decreases chars@.len() - i,
    {
        lower.push(lower_char(chars[i]));
        i = i + 1;
    }
    assert(lower@ =~= ascii_lowercase(name@));
    if chars_eq(&lower, &chars_of("info")) {
        Some(Severity::Info)
    } else if chars_eq(&lower, &chars_of("warning")) {
        Some(Severity::Warning)
    } else if chars_eq(&lower, &chars_of("error")) {
        Some(Severity::Error)
    } else {
        None
    }
}

/// Render a severity the way it is written in a configuration file.
pub fn severity_name(severity: &Severity) -> (res: &'static str)
    ensures
        res@ == spec_severity_name(*severity),
{
    match severity {
        Severity::Info => "info",
        Severity::Warning => "warning",
        Severity::Error => "error",
    }
}

/// Where a resolved value came from.
///
/// Recorded for every setting so that `config show` can explain itself.
#[derive(Debug, Clone, PartialEq, Eq)]
pub enum Origin {
    /// No configuration file mentioned this key; the declared default was used.
    Default,
    /// A command-line flag set this key.
    CommandLine,
    /// A configuration file set this key.
    File {
        /// The file that set it.
        path: String,
        /// One-based line number.
        line: usize,
        /// One-based column number.
        column: usize,
    },
}

/// Where a resolved value came from, as plain values.
pub enum OriginModel {
    Default,
    CommandLine,
    File { path: Seq<char>, line: nat, column: nat },
}

impl View for Origin {
    type V = OriginModel;

    open spec fn view(&self) -> OriginModel {
        match self {
            Origin::Default => OriginModel::Default,
            Origin::CommandLine => OriginModel::CommandLine,
            Origin::File { path, line, column } => OriginModel::File {
                path: path@,
                line: *line as nat,
                column: *column as nat,
            },
        }
    }
}

/// The origin of a value found in the file at `path` with text `text`, at
/// `span`; line 1 column 1 when the span is unknown.
pub open spec fn origin_at(path: Seq<char>, text: Seq<char>, span: Option<Range<usize>>) -> OriginModel {
    match span {
        Some(s) => OriginModel::File {
            path,
            line: spec_line_col(text, s.start).0,
            column: spec_line_col(text, s.start).1,
        },
        None => OriginModel::File { path, line: 1, column: 1 },
    }
}

/// The rendering of an origin, as `config show` prints it.
pub open spec fn origin_text(o: OriginModel) -> Seq<char> {
    match o {
        OriginModel::Default => "default"@,
        OriginModel::CommandLine => "command line"@,
        OriginModel::File { path, line, column } => path + ":"@ + decimal(line) + ":"@ + decimal(
            column,
        ),
    }
}

/// An origin recorded from a span and a diagnostic placed at the same span
/// name the same place: `config show` prints the origin exactly as the
/// diagnostic's location reads.
pub proof fn origin_names_the_diagnostic_location(
    d: DiagnosticModel,
    path: Seq<char>,
    text: Seq<char>,
    span: Range<usize>,
)
    ensures
        placed(d, path, text, Some(span)).location == Some(origin_text(origin_at(path, text, Some(span)))),
{
}

impl Origin {
    /// Build an [`Origin::File`] from a byte span, resolving line and column.
    ///
    /// Falls back to line 1 column 1 when the parser recorded no span.
    pub fn from_span(path: &str, text: &str, span: Option<Range<usize>>) -> (res: Self)
        requires
            span_locatable(text@, span),
        ensures
            res@ == origin_at(path@, text@, span),
    {
        let (line, column) = match span {
            Some(s) => line_col(text, s.start),
            None => (1, 1),
        };
        Origin::File { path: path.to_owned(), line, column }
    }

    /// A copy of this origin.
    pub fn duplicate(&self) -> (res: Self)
        ensures
            res@ == self@,
    {
        match self {
            Origin::Default => Origin::Default,
            Origin::CommandLine => Origin::CommandLine,
            Origin::File { path, line, column } => Origin::File {
                path: path.clone(),
                line: *line,
                column: *column,
            },
        }
    }

    /// The origin as `config show` prints it: `default`, `command line`, or
    /// `path:line:column`.
    pub fn to_text(&self) -> (res: String)
        ensures
            res@ == origin_text(self@),
    {
        match self {
            Origin::Default => "default".to_owned(),
            Origin::CommandLine => "command line".to_owned(),
            Origin::File { path, line, column } => {
                let mut s = concat2(path.as_str(), ":");
                s.append(to_decimal(*line as u64).as_str());
                s.append(":");
                s.append(to_decimal(*column as u64).as_str());
                s
            },
        }
    }
}

/// Everything resolved for one cop.
#[derive(Debug, Clone)]
pub struct CopSettings {
    /// The cop's declaration, carried so that parameter lookups can assert
    /// against the keys the cop actually declared.
    pub decl: &'static CopDecl,
    /// Whether this cop should run.
    pub enabled: bool,
    /// Severity to stamp on this cop's findings.
    pub severity: Severity,
    /// Every declared parameter, always complete.
    pub params: TextMap<&'static str, ParamValue>,
    /// Where each setting came from, keyed by `enabled`, `severity`, or a
    /// parameter key.
    pub origins: TextMap<&'static str, Origin>,
}

/// The origin recorded under `key`, or the default origin.
pub open spec fn recorded_origin(origins: Seq<(Seq<char>, Origin)>, key: Seq<char>) -> OriginModel {
    match lookup(origins, key) {
        Some(o) => o@,
        None => OriginModel::Default,
    }
}

impl CopSettings {
    /// A read handle for this cop's parameters.
    pub fn params(&self) -> (res: CopParams<'_>)
        ensures
            res.values() == self.params@,
            res.specs() == self.decl.params@,
    {
        CopParams::new(&self.params, self.decl.params)
    }

    /// Where a setting came from, or [`Origin::Default`] if it was never
    /// recorded.
    pub fn origin(&self, key: &str) -> (res: Origin)
        ensures
            res@ == recorded_origin(self.origins@, key@),
    {
        match self.origins.get(key) {
            Some(o) => o.duplicate(),
            None => Origin::Default,
        }
    }
}

/// True if `s` is registered under family `category` and name `name`.
pub open spec fn is_cop(s: CopSettings, category: Category, name: Seq<char>) -> bool {
    s.decl.category == category && s.decl.name@ == name
}

/// The effective configuration for a whole run.
#[derive(Debug, Clone)]
pub struct ResolvedConfig {
    /// Resolved `[globals]` values.
    pub globals: Globals,
    /// Resolved settings for every registered cop, ordered by family then
    /// name.
    cops: Vec<CopSettings>,
}

impl ResolvedConfig {
    /// Every cop's settings, in order.
    pub closed spec fn cops(&self) -> Seq<CopSettings> {
        self.cops@
    }

    /// The resolved global values.
    pub closed spec fn global_values(&self) -> Globals {
        self.globals
    }

    /// Build from already-resolved parts.
    pub fn new(globals: Globals, cops: Vec<CopSettings>) -> (res: Self)
        ensures
            res.global_values() == globals,
            res.cops() == cops@,
    {
        ResolvedConfig { globals, cops }
    }

    /// Settings for one cop, if it is registered.
    pub fn get(&self, category: Category, name: &str) -> (res: Option<&CopSettings>)
        ensures
            res matches Some(s) ==> exists|i: int|
                0 <= i < self.cops().len() && *s == self.cops()[i] && is_cop(self.cops()[i], category, name@)
                    && forall|j: int| 0 <= j < i ==> !is_cop(#[trigger] self.cops()[j], category, name@),
            res is None ==> forall|i: int|
                0 <= i < self.cops().len() ==> !is_cop(#[trigger] self.cops()[i], category, name@),
    {
        let mut i: usize = 0;
        while i < self.cops.len()
            invariant
                i <= self.cops@.len(),
                forall|j: int| 0 <= j < i ==> !is_cop(#[trigger] self.cops@[j], category, name@),
            decreases self.cops@.len() - i,
        {
            let s = &self.cops[i];
            if s.decl.category == category && crate::text::str_eq(s.decl.name, name) {
                assert(is_cop(self.cops@[i as int], category, name@));
                assert(forall|j: int| 0 <= j < i ==> !is_cop(#[trigger] self.cops()[j], category, name@));
                assert(*s == self.cops()[i as int]);
                return Some(s);
            }
            i = i + 1;
        }
        None
    }

    /// Every cop's settings, ordered by family then name.
    pub fn iter(&self) -> (res: core::slice::Iter<'_, CopSettings>)
        ensures
            vstd::std_specs::slice::into_iter_elts(res) == self.cops(),
    {
        broadcast use vstd::std_specs::slice::axiom_spec_slice_iter;
        let s = self.cops.as_slice();
        let it = s.iter();
        assert(s@.as_ref().unref() =~= self.cops@);
        it
    }

    /// Every enabled cop's settings, ordered by family then name.
    pub fn enabled(&self) -> (res: Vec<&CopSettings>)
        ensures
            res@ == self.cops().filter(|s: CopSettings| s.enabled).map_values(|s: CopSettings| &s),
    {
        let mut res: Vec<&CopSettings> = Vec::new();
        let mut i: usize = 0;
        while i < self.cops.len()
            invariant
                i <= self.cops@.len(),
                res@ == self.cops@.take(i as int).filter(|s: CopSettings| s.enabled).map_values(
                    |s: CopSettings| &s,
                ),
            decreases self.cops@.len() - i,
        {
            proof {
                let t = self.cops@.take(i + 1);
                assert(t.drop_last() =~= self.cops@.take(i as int));
                reveal_with_fuel(Seq::filter, 1);
            }
            if self.cops[i].enabled {
                res.push(&self.cops[i]);
            }
            proof {
                let t = self.cops@.take(i + 1);
                assert(res@ =~= t.filter(|s: CopSettings| s.enabled).map_values(|s: CopSettings| &s));
            }
            i = i + 1;
        }
        assert(self.cops@.take(i as int) =~= self.cops@);
        res
    }
}

// ---------------------------------------------------------------------------
// Rendering
// ---------------------------------------------------------------------------

/// What `str`'s `Debug` writes for `s`: `s` between double quotes, with its
/// characters escaped as `char::escape_debug` escapes them.
pub uninterp spec fn debug_quoted(s: Seq<char>) -> Seq<char>;

/// Quote a string as `str`'s `Debug` does.
#[verifier::external_body]
fn debug_str(s: &str) -> (res: String)
    ensures
        res@ == debug_quoted(s@),
{
    format!("{s:?}")
}

/// A boolean as Rust writes it.
pub open spec fn bool_text(b: bool) -> Seq<char> {
    if b {
        "true"@
    } else {
        "false"@
    }
}

/// A list of strings as `Vec<String>`'s `Debug` writes it.
pub open spec fn debug_list(items: Seq<Seq<char>>) -> Seq<char> {
    "["@ + join(items.map_values(|s: Seq<char>| debug_quoted(s)), ", "@) + "]"@
}

/// A resolved parameter value as `config show` writes it.
pub open spec fn value_text(v: ParamValue) -> Seq<char> {
    match v {
        ParamValue::Uint(n) => decimal(n as nat),
        ParamValue::Bool(b) => bool_text(b),
        ParamValue::Str(s) => debug_quoted(s@),
        ParamValue::StrList(l) => debug_list(l.deep_view()),
    }
}

/// One setting line: the key, its value, and where it came from.
pub open spec fn setting_line(key: Seq<char>, value: Seq<char>, origin: OriginModel) -> Seq<char> {
    key + " = "@ + value + "  # "@ + origin_text(origin) + "\n"@
}

/// The lines of a cop's parameters, in key order.
pub open spec fn params_text(params: Seq<(Seq<char>, ParamValue)>, origins: Seq<(Seq<char>, Origin)>) -> Seq<char>
    decreases params.len(),
{
    if params.len() == 0 {
        seq![]
    } else {
        params_text(params.drop_last(), origins) + setting_line(
            params.last().0,
            value_text(params.last().1),
            recorded_origin(origins, params.last().0),
        )
    }
}

/// One cop's section of `config show`.
pub open spec fn cop_text(s: CopSettings) -> Seq<char> {
    "\n"@ + "[cops."@ + category_name(s.decl.category) + "."@ + s.decl.name@ + "]\n"@ + setting_line(
        "enabled"@,
        bool_text(s.enabled),
        recorded_origin(s.origins@, "enabled"@),
    ) + setting_line(
        "severity"@,
        "\""@ + spec_severity_name(s.severity) + "\""@,
        recorded_origin(s.origins@, "severity"@),
    ) + params_text(s.params@, s.origins@)
}

/// Every cop's section, in order.
pub open spec fn cops_text(cops: Seq<CopSettings>) -> Seq<char>
    decreases cops.len(),
{
    if cops.len() == 0 {
        seq![]
    } else {
        cops_text(cops.drop_last()) + cop_text(cops.last())
    }
}

/// The body of `yarlint config show`.
pub open spec fn config_text(meta_keys: Seq<Seq<char>>, cops: Seq<CopSettings>) -> Seq<char> {
    "[globals]\n"@ + "required_meta_keys = "@ + debug_list(meta_keys) + "\n"@ + cops_text(cops)
}

proof fn lemma_cops_text_has_section(cops: Seq<CopSettings>, i: int, n: int)
    requires
        0 <= i < n <= cops.len(),
    ensures
        cops_text(cops.take(n)).len() >= cops_text(cops.take(i)).len() + cop_text(cops[i]).len(),
        cops_text(cops.take(n)).subrange(
            cops_text(cops.take(i)).len() as int,
            (cops_text(cops.take(i)).len() + cop_text(cops[i]).len()) as int,
        ) == cop_text(cops[i]),
    decreases n,
{
    let t = cops.take(n);
    assert(t.drop_last() =~= cops.take(n - 1));
    assert(t.last() == cops[n - 1]);
    let whole = cops_text(t);
    assert(whole == cops_text(cops.take(n - 1)) + cop_text(cops[n - 1]));
    let lo = cops_text(cops.take(i)).len() as int;
    let hi = lo + cop_text(cops[i]).len();
    if i == n - 1 {
        assert(whole.subrange(lo, hi) =~= cop_text(cops[i]));
    } else {
        lemma_cops_text_has_section(cops, i, n - 1);
        let prev = cops_text(cops.take(n - 1));
        assert(whole.subrange(lo, hi) =~= prev.subrange(lo, hi));
    }
}

proof fn lemma_subrange_after(x: Seq<char>, y: Seq<char>, lo: int, hi: int)
    requires
        0 <= lo <= hi <= y.len(),
    ensures
        (x + y).subrange(x.len() + lo, x.len() + hi) == y.subrange(lo, hi),
{
    assert((x + y).subrange(x.len() + lo, x.len() + hi) =~= y.subrange(lo, hi));
}

proof fn lemma_subrange_within(y: Seq<char>, a: int, b: int, lo: int, hi: int)
    requires
        0 <= a <= b <= y.len(),
        0 <= lo <= hi <= b - a,
    ensures
        y.subrange(a + lo, a + hi) == y.subrange(a, b).subrange(lo, hi),
{
    assert(y.subrange(a + lo, a + hi) =~= y.subrange(a, b).subrange(lo, hi));
}

#[verifier::spinoff_prover]
#[verifier::rlimit(60)]
proof fn lemma_cop_text_opens_with(c: CopSettings)
    ensures
        cop_text(c).len() >= 1 + section_opening(c).len(),
        cop_text(c).subrange(1, 1 + section_opening(c).len() as int) == section_opening(c),
{
    let e = section_opening(c);
    reveal_strlit("\n");
    assert(spec_severity_name(c.severity) == match c.severity {
        Severity::Info => "info"@,
        Severity::Warning => "warning"@,
        Severity::Error => "error"@,
    });
    assert(cop_text(c) =~= "\n"@ + e + params_text(c.params@, c.origins@));
    assert(cop_text(c).subrange(1, 1 + e.len() as int) =~= e);
}

/// `config show` opens every cop's section with its header and then the two
/// settings every cop has, as the cop is resolved: `enabled = true` or
/// `enabled = false`, then `severity = "info"`, `"warning"` or `"error"`,
/// each followed by a comment naming where the value came from.
pub proof fn show_writes_each_cops_effective_settings(meta_keys: Seq<Seq<char>>, cops: Seq<CopSettings>, i: int)
    requires
        0 <= i < cops.len(),
    ensures
        exists|k: int|
            0 <= k && k + section_opening(cops[i]).len() <= config_text(meta_keys, cops).len()
                && #[trigger] config_text(meta_keys, cops).subrange(k, k + section_opening(cops[i]).len())
                == section_opening(cops[i]),
{
    let c = cops[i];
    lemma_cops_text_has_section(cops, i, cops.len() as int);
    assert(cops.take(cops.len() as int) =~= cops);
    lemma_cop_text_opens_with(c);
    let head = "[globals]\n"@ + "required_meta_keys = "@ + debug_list(meta_keys) + "\n"@;
    let ct = cops_text(cops);
    let all = config_text(meta_keys, cops);
    assert(all == head + ct);
    let lo = cops_text(cops.take(i)).len() as int;
    let len = cop_text(c).len() as int;
    let e = section_opening(c);
    let el = e.len() as int;
    lemma_subrange_within(ct, lo, lo + len, 1, 1 + el);
    lemma_subrange_after(head, ct, lo + 1, lo + 1 + el);
    let k = head.len() + lo + 1;
    assert(all.subrange(k, k + el) == e);
}

/// The opening of a cop's `config show` section: its header, its effective
/// `enabled` flag and its severity, each with the comment naming its origin.
pub open spec fn section_opening(c: CopSettings) -> Seq<char> {
    "[cops."@ + category_name(c.decl.category) + "."@ + c.decl.name@ + "]\n"@ + "enabled"@ + " = "@ + (
    if c.enabled {
        "true"@
    } else {
        "false"@
    }) + "  # "@ + origin_text(recorded_origin(c.origins@, "enabled"@)) + "\n"@ + "severity"@ + " = "@
        + "\""@ + match c.severity {
        Severity::Info => "info"@,
        Severity::Warning => "warning"@,
        Severity::Error => "error"@,
    } + "\""@ + "  # "@ + origin_text(recorded_origin(c.origins@, "severity"@)) + "\n"@
}

/// A list of strings as `Vec<String>`'s `Debug` writes it.
fn debug_list_text(items: &Vec<String>) -> (res: String)
    ensures
        res@ == debug_list(items.deep_view()),
{
    let mut quoted: Vec<String> = Vec::new();
    let mut i: usize = 0;
    while i < items.len()
        invariant
            i <= items@.len(),
            quoted@.len() == i,
            forall|k: int| 0 <= k < i ==> #[trigger] quoted@[k]@ == debug_quoted(items@[k]@),
        decreases items@.len() - i,
    {
        quoted.push(debug_str(items[i].as_str()));
        i = i + 1;
    }
    let refs = borrow_all(&quoted);
    assert(quoted.deep_view() =~= items.deep_view().map_values(|s: Seq<char>| debug_quoted(s)));
    let mut res = "[".to_owned();
    res.append(join_strs(refs.as_slice(), ", ").as_str());
    res.append("]");
    res
}

/// A resolved parameter value as `config show` writes it.
fn value_line_text(v: &ParamValue) -> (res: String)
    ensures
        res@ == value_text(*v),
{
    match v {
        ParamValue::Uint(n) => to_decimal(*n),
        ParamValue::Bool(b) => if *b {
            "true".to_owned()
        } else {
            "false".to_owned()
        },
        ParamValue::Str(s) => debug_str(s.as_str()),
        ParamValue::StrList(l) => debug_list_text(l),
    }
}

/// Append one setting line.
fn push_setting(out: &mut String, key: &str, value: &str, origin: &Origin)
    ensures
        final(out)@ == old(out)@ + setting_line(key@, value@, origin@),
{
    out.append(key);
    out.append(" = ");
    out.append(value);
    out.append("  # ");
    out.append(origin.to_text().as_str());
    out.append("\n");
}

/// Append one cop's section.
fn push_cop(out: &mut String, s: &CopSettings)
    ensures
        final(out)@ == old(out)@ + cop_text(*s),
{
    let ghost start = out@;
    out.append("\n");
    out.append("[cops.");
    out.append(s.decl.category.name());
    out.append(".");
    out.append(s.decl.name);
    out.append("]\n");
    let enabled: &str = if s.enabled {
        "true"
    } else {
        "false"
    };
    push_setting(out, "enabled", enabled, &s.origin("enabled"));
    let severity = concat3("\"", severity_name(&s.severity), "\"");
    push_setting(out, "severity", severity.as_str(), &s.origin("severity"));
    let ghost head = out@;
    let mut i: usize = 0;
    assert(s.params@.take(0).len() == 0);
    while i < s.params.len()
        invariant
            i <= s.params@.len(),
            out@ == head + params_text(s.params@.take(i as int), s.origins@),
        decreases s.params@.len() - i,
    {
        let key = s.params.key_at(i);
        let value = value_line_text(s.params.value_at(i));
        proof {
            let t = s.params@.take(i + 1);
            assert(t.drop_last() =~= s.params@.take(i as int));
            assert(t.last() == s.params@[i as int]);
        }
        push_setting(out, key, value.as_str(), &s.origin(key));
        assert(out@ =~= head + params_text(s.params@.take(i + 1), s.origins@));
        i = i + 1;
    }
    assert(s.params@.take(i as int) =~= s.params@);
    assert(out@ =~= start + cop_text(*s));
}

impl ResolvedConfig {
    /// The effective configuration, annotated with where each value came
    /// from. This is the body of `yarlint config show`.
    pub fn to_text(&self) -> (res: String)
        ensures
            res@ == config_text(self.global_values().required_meta_keys.deep_view(), self.cops()),
    {
        let mut out = "[globals]\n".to_owned();
        out.append("required_meta_keys = ");
        out.append(debug_list_text(&self.globals.required_meta_keys).as_str());
        out.append("\n");
        let ghost head = out@;
        let mut i: usize = 0;
        assert(self.cops@.take(0).len() == 0);
        while i < self.cops.len()
            invariant
                i <= self.cops@.len(),
                out@ == head + cops_text(self.cops@.take(i as int)),
            decreases self.cops@.len() - i,
        {
            proof {
                let t = self.cops@.take(i + 1);
                assert(t.drop_last() =~= self.cops@.take(i as int));
                assert(t.last() == self.cops@[i as int]);
            }
            push_cop(&mut out, &self.cops[i]);
            assert(out@ =~= head + cops_text(self.cops@.take(i + 1)));
            i = i + 1;
        }
        assert(self.cops@.take(i as int) =~= self.cops@);
        out
    }
}

} // verus!
