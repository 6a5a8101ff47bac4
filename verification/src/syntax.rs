use vstd::prelude::*;

verus! {

/// The highlight state a row's classification ends in, carried across row
/// boundaries so multi-line comments and strings classify correctly.
#[derive(Debug)]
pub enum TokenState {
    /// Normal state.
    Normal,
    /// A multi-line comment has been opened, but not yet closed.
    MultiLineComment,
    /// A string has been opened with the given quote, but not yet closed.
    String(String),
    /// A multi-line string has been opened, but not yet closed.
    MultiLineString,
}

/// The mathematical value of a `TokenState`.
pub enum TokenStateV {
    Normal,
    MultiLineComment,
    InString(Seq<char>),
    MultiLineString,
}

impl View for TokenState {
    type V = TokenStateV;

    open spec fn view(&self) -> TokenStateV {
        match self {
            TokenState::Normal => TokenStateV::Normal,
            TokenState::MultiLineComment => TokenStateV::MultiLineComment,
            TokenState::String(q) => TokenStateV::InString(q@),
            TokenState::MultiLineString => TokenStateV::MultiLineString,
        }
    }
}

impl Clone for TokenState {
    fn clone(&self) -> (r: Self)
        ensures
            r@ == self@,
    {
        match self {
            TokenState::Normal => TokenState::Normal,
            TokenState::MultiLineComment => TokenState::MultiLineComment,
            TokenState::String(q) => TokenState::String(q.clone()),
            TokenState::MultiLineString => TokenState::MultiLineString,
        }
    }
}

impl Default for TokenState {
    fn default() -> (r: Self)
        ensures
            r@ == TokenStateV::Normal,
    {
        TokenState::Normal
    }
}

impl TokenState {
    /// Whether two states are the same, quote included.
    pub fn state_eq(&self, other: &TokenState) -> (r: bool)
        ensures
            r == (self@ == other@),
    {
        match (self, other) {
            (TokenState::Normal, TokenState::Normal) => true,
            (TokenState::MultiLineComment, TokenState::MultiLineComment) => true,
            (TokenState::String(a), TokenState::String(b)) => *a == *b,
            (TokenState::MultiLineString, TokenState::MultiLineString) => true,
            _ => false,
        }
    }
}

/// The highlight category of a single cell.
#[derive(Debug, Clone, Copy, PartialEq, Eq, Structural)]
pub enum TokenType {
    Normal,
    Number,
    Match,
    String,
    MlString,
    Comment,
    MlComment,
    Keyword1,
    Keyword2,
    Keyword3,
}

/// A syntax-highlighting ruleset for one language.
pub struct Syntax {
    /// The name of the language.
    pub name: String,
    /// Whether to highlight numbers.
    pub highlight_numbers: bool,
    /// Quotes that open and close single-line strings.
    pub sl_string_quotes: Vec<String>,
    /// Tokens that start a single-line comment.
    pub sl_comment_start: Vec<String>,
    /// Tokens that open and close a multi-line comment.
    pub ml_comment_delims: Option<(String, String)>,
    /// The token that both opens and closes a multi-line string.
    pub ml_string_delim: Option<String>,
    /// Keyword lists, each tagged with the category to paint them in.
    pub keywords: Vec<(TokenType, Vec<String>)>,
}

/// The mathematical value of a `Syntax` ruleset.
pub struct SyntaxV {
    pub name: Seq<char>,
    pub highlight_numbers: bool,
    pub sl_string_quotes: Seq<Seq<char>>,
    pub sl_comment_start: Seq<Seq<char>>,
    pub ml_comment_delims: Option<(Seq<char>, Seq<char>)>,
    pub ml_string_delim: Option<Seq<char>>,
    pub keywords: Seq<(TokenType, Seq<Seq<char>>)>,
}

impl View for Syntax {
    type V = SyntaxV;

    open spec fn view(&self) -> SyntaxV {
        SyntaxV {
            name: self.name@,
            highlight_numbers: self.highlight_numbers,
            sl_string_quotes: self.sl_string_quotes@.map_values(|s: String| s@),
            sl_comment_start: self.sl_comment_start@.map_values(|s: String| s@),
            ml_comment_delims: match &self.ml_comment_delims {
                Option::Some(p) => Some((p.0@, p.1@)),
                Option::None => None,
            },
            ml_string_delim: match &self.ml_string_delim {
                Option::Some(s) => Some(s@),
                Option::None => None,
            },
            keywords: self.keywords@.map_values(
                |p: (TokenType, Vec<String>)| (p.0, p.1@.map_values(|s: String| s@)),
            ),
        }
    }
}

impl Default for Syntax {
    fn default() -> (r: Self)
        ensures
            r.name@ == Seq::<char>::empty(),
            !r.highlight_numbers,
            r.sl_string_quotes@ == Seq::<String>::empty(),
            r.sl_comment_start@ == Seq::<String>::empty(),
            r.ml_comment_delims is None,
            r.ml_string_delim is None,
            r.keywords@ == Seq::<(TokenType, Vec<String>)>::empty(),
    {
        Syntax {
            name: String::new(),
            highlight_numbers: false,
            sl_string_quotes: Vec::new(),
            sl_comment_start: Vec::new(),
            ml_comment_delims: None,
            ml_string_delim: None,
            keywords: Vec::new(),
        }
    }
}

/// The pieces a value splits into at each ", " separator.
pub open spec fn split_comma_space(s: Seq<char>) -> Seq<Seq<char>>
    decreases s.len(),
{
    if s.len() == 0 {
        seq![Seq::<char>::empty()]
    } else if s.len() >= 2 && s[0] == ',' && s[1] == ' ' {
        seq![Seq::<char>::empty()] + split_comma_space(s.skip(2))
    } else {
        let rest = split_comma_space(s.drop_first());
        seq![seq![s[0]] + rest[0]] + rest.drop_first()
    }
}

/// A separator split yields at least one piece.
pub proof fn lemma_split_cs_len(s: Seq<char>)
    ensures
        split_comma_space(s).len() >= 1,
    decreases s.len(),
{
    if s.len() > 0 {
        if s.len() >= 2 && s[0] == ',' && s[1] == ' ' {
            lemma_split_cs_len(s.skip(2));
        } else {
            lemma_split_cs_len(s.drop_first());
        }
    }
}

/// Whether a ", " separator starts at position `j`.
pub open spec fn sep_at(s: Seq<char>, j: int) -> bool {
    j + 1 < s.len() && s[j] == ',' && s[j + 1] == ' '
}

/// If no separator starts before `k` and one starts at `k` (or `k` is the
/// end), the first piece is exactly the first `k` characters.
pub proof fn lemma_split_cs_boundary(s: Seq<char>, k: int)
    requires
        0 <= k <= s.len(),
        forall|j: int| 0 <= j < k ==> !sep_at(s, j),
        k == s.len() || sep_at(s, k),
    ensures
        k == s.len() ==> split_comma_space(s) == seq![s],
        k < s.len() ==> split_comma_space(s) == seq![s.take(k)] + split_comma_space(s.skip(k + 2)),
    decreases k,
{
    lemma_split_cs_len(s);
    if k == 0 {
        if s.len() == 0 {
            assert(s =~= Seq::<char>::empty());
            assert(split_comma_space(s) == seq![Seq::<char>::empty()]);
        } else {
            assert(sep_at(s, 0));
            assert(s.take(0) =~= Seq::<char>::empty());
            assert(split_comma_space(s) =~= seq![s.take(0)] + split_comma_space(s.skip(2)));
        }
    } else {
        let d = s.drop_first();
        assert(!sep_at(s, 0));
        assert(forall|j: int| 0 <= j < d.len() ==> #[trigger] d[j] == s[j + 1]);
        assert forall|j: int| 0 <= j < k - 1 implies !sep_at(d, j) by {
            assert(!sep_at(s, j + 1));
            if j + 1 < d.len() {
                assert(d[j] == s[j + 1]);
                assert(d[j + 1] == s[j + 2]);
            }
        }
        if k < s.len() {
            assert(sep_at(d, k - 1));
        }
        lemma_split_cs_boundary(d, k - 1);
        let rest = split_comma_space(d);
        lemma_split_cs_len(d);
        if k == s.len() {
            assert(rest == seq![d]);
            assert(seq![s[0]] + rest[0] =~= s);
            assert(rest.drop_first() =~= Seq::<Seq<char>>::empty());
            assert(split_comma_space(s) =~= seq![s]);
        } else {
            assert(rest == seq![d.take(k - 1)] + split_comma_space(d.skip(k + 1)));
            assert(seq![s[0]] + rest[0] =~= s.take(k));
            assert(d.skip(k + 1) =~= s.skip(k + 2));
            assert(rest.drop_first() =~= split_comma_space(s.skip(k + 2)));
            assert(split_comma_space(s) =~= seq![s.take(k)] + split_comma_space(s.skip(k + 2)));
        }
    }
}

/// Parse a plain INI value: the text itself.
pub fn pv(value: &str) -> (r: String)
    ensures
        r@ == value@,
{
    value.to_owned()
}

/// Parse a boolean INI value: exactly "true" or "false"; anything else is a
/// parser error message.
pub fn pv_bool(value: &str) -> (r: Result<bool, String>)
    ensures
        value@ == "true"@ ==> r == Result::<bool, String>::Ok(true),
        value@ == "false"@ ==> r == Result::<bool, String>::Ok(false),
        !(value@ == "true"@ || value@ == "false"@) ==> r is Err,
        r is Err ==> r->Err_0@ == "Parser error: provided string was not `true` or `false`"@,
{
    proof {
        reveal_strlit("true");
        reveal_strlit("false");
        assert("true"@.len() == 4);
        assert("false"@.len() == 5);
    }
    if str_eq(value, "true") {
        Ok(true)
    } else if str_eq(value, "false") {
        Ok(false)
    } else {
        Err("Parser error: provided string was not `true` or `false`".to_owned())
    }
}

/// Whether two string slices hold the same characters.
fn str_eq(a: &str, b: &str) -> (r: bool)
    ensures
        r == (a@ == b@),
{
    let n = a.unicode_len();
    let m = b.unicode_len();
    if n != m {
        return false;
    }
    let mut k: usize = 0;
    while k < n
        invariant
            k <= n,
            n == a@.len(),
            n == b@.len(),
            forall|j: int| 0 <= j < k ==> a@[j] == b@[j],
        decreases n - k,
    {
        if a.get_char(k) != b.get_char(k) {
            return false;
        }
        k += 1;
    }
    proof {
        assert(a@ =~= b@);
    }
    true
}

/// Parse a comma-separated list of INI values.
pub fn pvs(value: &str) -> (r: Vec<String>)
    requires
        value@.len() < usize::MAX,
    ensures
        r@.len() == split_comma_space(value@).len(),
        forall|k: int| 0 <= k < r@.len() ==> #[trigger] r@[k]@ == split_comma_space(value@)[k],
{
    let ghost raw = split_comma_space(value@);
    proof {
        lemma_split_cs_len(value@);
    }
    let n = value.unicode_len();
    let mut out: Vec<String> = Vec::new();
    let mut start: usize = 0;
    let ghost mut done: Seq<Seq<char>> = Seq::empty();
    proof {
        assert(value@.skip(0) =~= value@);
    }
    while start <= n
        invariant
            n == value@.len(),
            n < usize::MAX,
            start <= n + 1,
            done.len() == out@.len(),
            raw == split_comma_space(value@),
            start <= n ==> raw =~= done + split_comma_space(value@.skip(start as int)),
            start == n + 1 ==> raw =~= done,
            forall|k: int| 0 <= k < done.len() ==> #[trigger] out@[k]@ == done[k],
        decreases n + 1 - start,
    {
        let ghost rem = value@.skip(start as int);
        let mut i: usize = start;
        while i < n && !(i + 1 < n && value.get_char(i) == ',' && value.get_char(i + 1) == ' ')
            invariant
                start <= i <= n,
                n == value@.len(),
                forall|j: int| start <= j < i ==> !sep_at(value@, j),
            decreases n - i,
        {
            proof {
                if i + 1 < n {
                } else {
                    assert(!sep_at(value@, i as int));
                }
            }
            i += 1;
        }
        proof {
            assert(forall|j: int|
                0 <= j < rem.len() ==> #[trigger] rem[j] == value@[j + start]);
            assert forall|j: int| 0 <= j < i - start implies !sep_at(rem, j) by {
                assert(!sep_at(value@, j + start));
            }
            if i < n {
                assert(sep_at(value@, i as int));
                assert(sep_at(rem, i - start));
            }
            lemma_split_cs_boundary(rem, i - start);
        }
        let ghost piece = rem.take(i - start);
        let text = value.substring_char(start, i);
        proof {
            assert(text@ =~= piece);
        }
        out.push(pv(text));
        proof {
            if i == n {
                assert(rem =~= piece);
            }
            done = done.push(piece);
            if i < n {
                assert(rem.skip(i - start + 2) =~= value@.skip(i + 2));
            }
        }
        if i < n {
            start = i + 2;
        } else {
            start = n + 1;
        }
    }
    proof {
        assert forall|k: int| 0 <= k < out@.len() implies #[trigger] out@[k]@ == raw[k] by {}
    }
    out
}

/// An ASCII whitespace character, as the INI reader skips them.
pub open spec fn spec_ini_ws(c: char) -> bool {
    c == ' ' || c == '\t' || c == '\n' || c == '\r' || c as u32 == 12
}

fn is_ascii_ws(c: char) -> (r: bool)
    ensures
        r == spec_ini_ws(c),
{
    let u = c as u32;
    u == 32 || u == 9 || u == 10 || u == 13 || u == 12
}

/// The first index at or after `i` whose character is not whitespace.
pub open spec fn ws_run(s: Seq<char>, i: int) -> int
    decreases s.len() - i,
{
    if 0 <= i < s.len() && spec_ini_ws(s[i]) {
        ws_run(s, i + 1)
    } else {
        i
    }
}

/// The first index at or after `i` holding an equals sign (or the length).
pub open spec fn eq_run(s: Seq<char>, i: int) -> int
    decreases s.len() - i,
{
    if 0 <= i < s.len() && s[i] != '=' {
        eq_run(s, i + 1)
    } else {
        i
    }
}

/// The boundary at or before `i` with no whitespace just before it.
pub open spec fn ws_back(s: Seq<char>, i: int) -> int
    decreases i,
{
    if 0 < i <= s.len() && spec_ini_ws(s[i - 1]) {
        ws_back(s, i - 1)
    } else {
        i
    }
}

/// An empty ruleset.
pub open spec fn spec_syntax_default() -> SyntaxV {
    SyntaxV {
        name: Seq::<char>::empty(),
        highlight_numbers: false,
        sl_string_quotes: Seq::<Seq<char>>::empty(),
        sl_comment_start: Seq::<Seq<char>>::empty(),
        ml_comment_delims: None,
        ml_string_delim: None,
        keywords: Seq::<(TokenType, Seq<Seq<char>>)>::empty(),
    }
}

/// What one INI line does to the ruleset being built and the extension list:
/// blank and comment lines change nothing; a recognized `key = value` line
/// (key right-trimmed, value as written) sets its field or extends its list;
/// anything else earns the error message given here.
pub open spec fn spec_ini_line(
    sc: SyntaxV,
    exts: Seq<Seq<char>>,
    line: Seq<char>,
) -> Result<(SyntaxV, Seq<Seq<char>>), Seq<char>> {
    let trimmed = line.skip(ws_run(line, 0));
    if trimmed.len() == 0 {
        Ok((sc, exts))
    } else if trimmed[0] == '#' || trimmed[0] == ';' {
        Ok((sc, exts))
    } else {
        let e = eq_run(trimmed, 0);
        if e == trimmed.len() {
            Err("No '='"@)
        } else {
            let key = trimmed.take(ws_back(trimmed, e));
            let value = trimmed.skip(e + 1);
            if key == "name"@ {
                Ok((SyntaxV { name: value, ..sc }, exts))
            } else if key == "extensions"@ {
                Ok((sc, exts + split_comma_space(value)))
            } else if key == "highlight_numbers"@ {
                if value == "true"@ {
                    Ok((SyntaxV { highlight_numbers: true, ..sc }, exts))
                } else if value == "false"@ {
                    Ok((SyntaxV { highlight_numbers: false, ..sc }, exts))
                } else {
                    Err("Parser error: provided string was not `true` or `false`"@)
                }
            } else if key == "singleline_string_quotes"@ {
                Ok((SyntaxV { sl_string_quotes: split_comma_space(value), ..sc }, exts))
            } else if key == "singleline_comment_start"@ {
                Ok((SyntaxV { sl_comment_start: split_comma_space(value), ..sc }, exts))
            } else if key == "multiline_comment_delims"@ {
                let ds = split_comma_space(value);
                if ds.len() == 2 {
                    Ok((SyntaxV { ml_comment_delims: Some((ds[0], ds[1])), ..sc }, exts))
                } else {
                    Err("Expected 2 delimiters, got "@ + crate::util::spec_decimal(ds.len()))
                }
            } else if key == "multiline_string_delim"@ {
                Ok((SyntaxV { ml_string_delim: Some(value), ..sc }, exts))
            } else if key == "keywords_1"@ {
                Ok(
                    (
                        SyntaxV {
                            keywords: sc.keywords.push(
                                (TokenType::Keyword1, split_comma_space(value)),
                            ),
                            ..sc
                        },
                        exts,
                    ),
                )
            } else if key == "keywords_2"@ {
                Ok(
                    (
                        SyntaxV {
                            keywords: sc.keywords.push(
                                (TokenType::Keyword2, split_comma_space(value)),
                            ),
                            ..sc
                        },
                        exts,
                    ),
                )
            } else if key == "keywords_3"@ {
                Ok(
                    (
                        SyntaxV {
                            keywords: sc.keywords.push(
                                (TokenType::Keyword3, split_comma_space(value)),
                            ),
                            ..sc
                        },
                        exts,
                    ),
                )
            } else {
                Err("Invalid key: "@ + key)
            }
        }
    }
}

/// Folding the INI lines from `i` on into the ruleset: the finished ruleset
/// and extension list, or the one-based line number and message of the first
/// bad line.
pub open spec fn ini_fold(
    lines: Seq<Seq<char>>,
    i: int,
    sc: SyntaxV,
    exts: Seq<Seq<char>>,
) -> Result<(SyntaxV, Seq<Seq<char>>), (int, Seq<char>)>
    decreases lines.len() - i,
{
    if i < 0 || i >= lines.len() {
        Ok((sc, exts))
    } else {
        match spec_ini_line(sc, exts, lines[i]) {
            Result::Ok(p) => ini_fold(lines, i + 1, p.0, p.1),
            Result::Err(m) => Err((i + 1, m)),
        }
    }
}

/// Pushing a keyword group onto the list maps to pushing its values.
proof fn lemma_keywords_push(
    kws: Seq<(TokenType, Vec<String>)>,
    tp: TokenType,
    vs: Seq<String>,
    value: Seq<char>,
)
    requires
        kws.len() >= 1,
        kws.last().0 == tp,
        kws.last().1@ == vs,
        vs.map_values(|s: String| s@) == split_comma_space(value),
    ensures
        kws.map_values(|p: (TokenType, Vec<String>)| (p.0, p.1@.map_values(|s: String| s@)))
            == kws.subrange(0, kws.len() - 1).map_values(
            |p: (TokenType, Vec<String>)| (p.0, p.1@.map_values(|s: String| s@)),
        ).push((tp, split_comma_space(value))),
{
    let cl = |p: (TokenType, Vec<String>)| (p.0, p.1@.map_values(|s: String| s@));
    let prior = kws.subrange(0, kws.len() - 1).map_values(cl);
    assert forall|j: int| 0 <= j < kws.len() implies kws.map_values(cl)[j] == prior.push(
        (tp, split_comma_space(value)),
    )[j] by {
        assert(kws.map_values(cl)[j] == cl(kws[j]));
        if j < kws.len() - 1 {
            assert(prior[j] == cl(kws.subrange(0, kws.len() - 1)[j]));
            assert(kws.subrange(0, kws.len() - 1)[j] == kws[j]);
        } else {
            assert(kws[j] == kws.last());
        }
    }
    assert(kws.map_values(cl) =~= prior.push((tp, split_comma_space(value))));
}

impl Syntax {
    /// Parse a ruleset from INI text: one `key = value` per line (one
    /// trailing carriage return stripped per line), `#` or `;` comments and
    /// blank lines skipped, exactly as `ini_fold` folds the lines. Returns
    /// the ruleset and the file extensions it applies to, or the path, the
    /// one-based line and the cause of the first bad line.
    #[verifier::rlimit(100)]
    #[verifier::spinoff_prover]
    pub fn from_ini(path: &str, text: &str) -> (r: Result<
        (Syntax, Vec<String>),
        crate::error::Error,
    >)
        requires
            text@.len() < usize::MAX,
        ensures
            ({
                let f = ini_fold(
                    crate::util::spec_lines(text@),
                    0,
                    spec_syntax_default(),
                    Seq::<Seq<char>>::empty(),
                );
                match r {
                    Result::Ok(p) => f is Ok && p.0@ == (f->Ok_0).0 && p.1@.map_values(
                        |s: String| s@,
                    ) == (f->Ok_0).1,
                    Result::Err(err) => f is Err && (match err {
                        crate::error::Error::FileError(pth, line, msg) => pth@ == path@ && line
                            == (f->Err_0).0 && msg@ == (f->Err_0).1,
                        _ => false,
                    }),
                }
            }),
    {
        let ghost all_lines = crate::util::spec_lines(text@);
        let ghost raw = crate::util::split_on_newline(text@);
        proof {
            crate::util::lemma_split_len(text@);
            assert(all_lines.len() == raw.len());
        }
        let mut sc = Syntax::default();
        let mut extensions: Vec<String> = Vec::new();
        proof {
            assert(sc@ =~= spec_syntax_default()) by {
                assert(sc@.sl_string_quotes =~= Seq::<Seq<char>>::empty());
                assert(sc@.sl_comment_start =~= Seq::<Seq<char>>::empty());
                assert(sc@.keywords =~= Seq::<(TokenType, Seq<Seq<char>>)>::empty());
            }
            assert(extensions@.map_values(|s: String| s@) =~= Seq::<Seq<char>>::empty());
        }
        let n = text.unicode_len();
        let mut start: usize = 0;
        let mut lineno: usize = 0;
        let ghost mut done: Seq<Seq<char>> = Seq::empty();
        proof {
            assert(text@.skip(0) =~= text@);
        }
        while start <= n
            invariant
                n == text@.len(),
                n < usize::MAX,
                start <= n + 1,
                lineno <= start,
                lineno == done.len(),
                raw == crate::util::split_on_newline(text@),
                all_lines == crate::util::spec_lines(text@),
                all_lines.len() == raw.len(),
                start <= n ==> raw =~= done + crate::util::split_on_newline(
                    text@.skip(start as int),
                ),
                start == n + 1 ==> raw =~= done,
                ini_fold(all_lines, 0, spec_syntax_default(), Seq::<Seq<char>>::empty())
                    == ini_fold(
                    all_lines,
                    lineno as int,
                    sc@,
                    extensions@.map_values(|s: String| s@),
                ),
            decreases n + 1 - start,
        {
            let ghost rem = text@.skip(start as int);
            let mut i: usize = start;
            while i < n && text.get_char(i) != '\n'
                invariant
                    start <= i <= n,
                    n == text@.len(),
                    forall|j: int| start <= j < i ==> text@[j] != '\n',
                decreases n - i,
            {
                i += 1;
            }
            lineno += 1;
            proof {
                assert(forall|j: int| 0 <= j < rem.len() ==> #[trigger] rem[j] == text@[j + start]);
                crate::util::lemma_split_boundary(rem, i - start);
            }
            let ghost rawline = rem.take(i - start);
            proof {
                if i == n {
                    assert(rem =~= rawline);
                }
                assert(raw[lineno - 1] == rawline);
                assert(all_lines[lineno - 1] == crate::util::strip_cr(rawline));
            }
            let mut endx = i;
            if endx > start && text.get_char(endx - 1) == '\r' {
                endx -= 1;
                proof {
                    assert(rawline.last() == text@[i - 1]);
                }
            }
            let piece = text.substring_char(start, endx);
            proof {
                if endx < i {
                    assert(piece@ =~= crate::util::strip_cr(rawline));
                } else {
                    assert(rawline.len() == 0 || rawline.last() != '\r');
                    assert(piece@ =~= crate::util::strip_cr(rawline));
                }
            }
            let ghost line = piece@;
            let ghost scv = sc@;
            let ghost extsv = extensions@.map_values(|s: String| s@);
            // left-trim, then classify the line
            let m2 = piece.unicode_len();
            let mut a: usize = 0;
            while a < m2 && is_ascii_ws(piece.get_char(a))
                invariant
                    a <= m2,
                    m2 == line.len(),
                    line == piece@,
                    ws_run(line, 0) == ws_run(line, a as int),
                decreases m2 - a,
            {
                a += 1;
            }
            proof {
                assert(ws_run(line, 0) == a);
            }
            let trimmed = piece.substring_char(a, m2);
            let ghost tv = line.skip(a as int);
            proof {
                assert(trimmed@ =~= tv);
            }
            let tl = trimmed.unicode_len();
            if tl == 0 {
                proof {
                    assert(spec_ini_line(scv, extsv, all_lines[lineno - 1]) == Result::<
                        (SyntaxV, Seq<Seq<char>>),
                        Seq<char>,
                    >::Ok((scv, extsv)));
                }
                proof {
                    done = done.push(rawline);
                    if i < n {
                        assert(rem.skip(i - start + 1) =~= text@.skip(i + 1));
                    }
                }
                start = i + 1;
                continue ;
            }
            let c0 = trimmed.get_char(0);
            if c0 == '#' || c0 == ';' {
                proof {
                    assert(spec_ini_line(scv, extsv, all_lines[lineno - 1]) == Result::<
                        (SyntaxV, Seq<Seq<char>>),
                        Seq<char>,
                    >::Ok((scv, extsv)));
                }
                proof {
                    done = done.push(rawline);
                    if i < n {
                        assert(rem.skip(i - start + 1) =~= text@.skip(i + 1));
                    }
                }
                start = i + 1;
                continue ;
            }
            let mut e: usize = 0;
            while e < tl && trimmed.get_char(e) != '='
                invariant
                    e <= tl,
                    tl == tv.len(),
                    tv == trimmed@,
                    eq_run(tv, 0) == eq_run(tv, e as int),
                decreases tl - e,
            {
                e += 1;
            }
            proof {
                assert(eq_run(tv, 0) == e);
            }
            if e == tl {
                let msg = "No '='".to_owned();
                proof {
                    assert(spec_ini_line(scv, extsv, all_lines[lineno - 1]) == Result::<
                        (SyntaxV, Seq<Seq<char>>),
                        Seq<char>,
                    >::Err("No '='"@));
                }
                return Err(crate::error::Error::FileError(path.to_owned(), lineno, msg));
            }
            let mut ke: usize = e;
            while ke > 0 && is_ascii_ws(trimmed.get_char(ke - 1))
                invariant
                    ke <= e,
                    e < tl,
                    tl == tv.len(),
                    tv == trimmed@,
                    ws_back(tv, e as int) == ws_back(tv, ke as int),
                decreases ke,
            {
                ke -= 1;
            }
            proof {
                assert(ws_back(tv, e as int) == ke);
            }
            let key = trimmed.substring_char(0, ke);
            let value = trimmed.substring_char(e + 1, tl);
            proof {
                assert(key@ =~= tv.take(ke as int));
                assert(value@ =~= tv.skip(e + 1));
                assert(value@.len() < usize::MAX);
            }
            if str_eq(key, "name") {
                sc.name = pv(value);
            } else if str_eq(key, "extensions") {
                let ghost before = extensions@;
                let mut vs = pvs(value);
                let ghost added = vs@;
                extensions.append(&mut vs);
                proof {
                    assert forall|j: int|
                        0 <= j < extensions@.len() implies (#[trigger] extensions@[j])@ == (extsv
                        + split_comma_space(value@))[j] by {
                        if j < before.len() {
                            assert(extensions@[j] == before[j]);
                            assert(before.map_values(|s: String| s@)[j] == before[j]@);
                        } else {
                            assert(extensions@[j] == added[j - before.len()]);
                            assert(added.map_values(|s: String| s@)[j - before.len()] == added[j
                                - before.len()]@);
                        }
                    }
                    assert(extensions@.map_values(|s: String| s@) =~= extsv + split_comma_space(
                        value@,
                    ));
                }
            } else if str_eq(key, "highlight_numbers") {
                match pv_bool(value) {
                    Ok(b) => {
                        sc.highlight_numbers = b;
                    },
                    Err(msg) => {
                        return Err(crate::error::Error::FileError(path.to_owned(), lineno, msg));
                    },
                }
            } else if str_eq(key, "singleline_string_quotes") {
                sc.sl_string_quotes = pvs(value);
                proof {
                    assert(sc@.sl_string_quotes =~= split_comma_space(value@));
                }
            } else if str_eq(key, "singleline_comment_start") {
                sc.sl_comment_start = pvs(value);
                proof {
                    assert(sc@.sl_comment_start =~= split_comma_space(value@));
                }
            } else if str_eq(key, "multiline_comment_delims") {
                let ds = pvs(value);
                if ds.len() == 2 {
                    let d0 = ds[0].clone();
                    let d1 = ds[1].clone();
                    sc.ml_comment_delims = Some((d0, d1));
                    proof {
                        assert(sc@.ml_comment_delims == Some(
                            (split_comma_space(value@)[0], split_comma_space(value@)[1]),
                        ));
                    }
                } else {
                    let mut msg = "Expected 2 delimiters, got ".to_owned();
                    let num = crate::util::usize_to_string(ds.len());
                    msg.append(num.as_str());
                    proof {
                        assert(split_comma_space(value@).len() == ds@.len());
                        assert(msg@ == "Expected 2 delimiters, got "@ + crate::util::spec_decimal(
                            split_comma_space(value@).len(),
                        ));
                    }
                    return Err(crate::error::Error::FileError(path.to_owned(), lineno, msg));
                }
            } else if str_eq(key, "multiline_string_delim") {
                sc.ml_string_delim = Some(pv(value));
            } else if str_eq(key, "keywords_1") {
                let ghost kws0 = sc@.keywords;
                let vs = pvs(value);
                let ghost vsv = vs@;
                proof {
                    assert forall|k: int| 0 <= k < vsv.len() implies (#[trigger] vsv[k])@
                        == split_comma_space(value@)[k] by {}
                    assert(vsv.map_values(|s: String| s@) =~= split_comma_space(value@));
                }
                sc.keywords.push((TokenType::Keyword1, vs));
                proof {
                    assert(sc.keywords@.subrange(0, sc.keywords@.len() - 1).map_values(
                        |p: (TokenType, Vec<String>)| (p.0, p.1@.map_values(|s: String| s@)),
                    ) =~= kws0) by {
                        assert(forall|j: int|
                            0 <= j < sc.keywords@.len() - 1 ==> sc.keywords@.subrange(
                                0,
                                sc.keywords@.len() - 1,
                            )[j] == #[trigger] sc.keywords@[j]);
                    }
                    lemma_keywords_push(sc.keywords@, TokenType::Keyword1, vsv, value@);
                }
            } else if str_eq(key, "keywords_2") {
                let ghost kws0 = sc@.keywords;
                let vs = pvs(value);
                let ghost vsv = vs@;
                proof {
                    assert forall|k: int| 0 <= k < vsv.len() implies (#[trigger] vsv[k])@
                        == split_comma_space(value@)[k] by {}
                    assert(vsv.map_values(|s: String| s@) =~= split_comma_space(value@));
                }
                sc.keywords.push((TokenType::Keyword2, vs));
                proof {
                    assert(sc.keywords@.subrange(0, sc.keywords@.len() - 1).map_values(
                        |p: (TokenType, Vec<String>)| (p.0, p.1@.map_values(|s: String| s@)),
                    ) =~= kws0) by {
                        assert(forall|j: int|
                            0 <= j < sc.keywords@.len() - 1 ==> sc.keywords@.subrange(
                                0,
                                sc.keywords@.len() - 1,
                            )[j] == #[trigger] sc.keywords@[j]);
                    }
                    lemma_keywords_push(sc.keywords@, TokenType::Keyword2, vsv, value@);
                }
            } else if str_eq(key, "keywords_3") {
                let ghost kws0 = sc@.keywords;
                let vs = pvs(value);
                let ghost vsv = vs@;
                proof {
                    assert forall|k: int| 0 <= k < vsv.len() implies (#[trigger] vsv[k])@
                        == split_comma_space(value@)[k] by {}
                    assert(vsv.map_values(|s: String| s@) =~= split_comma_space(value@));
                }
                sc.keywords.push((TokenType::Keyword3, vs));
                proof {
                    assert(sc.keywords@.subrange(0, sc.keywords@.len() - 1).map_values(
                        |p: (TokenType, Vec<String>)| (p.0, p.1@.map_values(|s: String| s@)),
                    ) =~= kws0) by {
                        assert(forall|j: int|
                            0 <= j < sc.keywords@.len() - 1 ==> sc.keywords@.subrange(
                                0,
                                sc.keywords@.len() - 1,
                            )[j] == #[trigger] sc.keywords@[j]);
                    }
                    lemma_keywords_push(sc.keywords@, TokenType::Keyword3, vsv, value@);
                }
            } else {
                let mut msg = "Invalid key: ".to_owned();
                msg.append(key);
                proof {
                    assert(msg@ == "Invalid key: "@ + tv.take(ke as int));
                }
                return Err(crate::error::Error::FileError(path.to_owned(), lineno, msg));
            }
            proof {
                assert(spec_ini_line(scv, extsv, all_lines[lineno - 1]) == Result::<
                    (SyntaxV, Seq<Seq<char>>),
                    Seq<char>,
                >::Ok((sc@, extensions@.map_values(|s: String| s@))));
            }
            proof {
                done = done.push(rawline);
                if i < n {
                    assert(rem.skip(i - start + 1) =~= text@.skip(i + 1));
                }
            }
            start = i + 1;
        }
        proof {
            assert(ini_fold(
                all_lines,
                lineno as int,
                sc@,
                extensions@.map_values(|s: String| s@),
            ) == Result::<(SyntaxV, Seq<Seq<char>>), (int, Seq<char>)>::Ok(
                (sc@, extensions@.map_values(|s: String| s@)),
            ));
        }
        Ok((sc, extensions))
    }
}

} // verus!
