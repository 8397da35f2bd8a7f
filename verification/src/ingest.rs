//! Ingestion: a small source parser that extracts function-level code
//! units, a bag-of-words embedder over them, and the routines that load
//! units into the stores through atomic transactions.
//!
//! Text handling here is ASCII-oriented: word characters are ASCII
//! letters, digits and underscores, and whitespace is the ASCII kind.

use vstd::prelude::*;
use vstd::string::StrSliceExecFns;
use vstd::string::StringExecFns;
use crate::errors::{OnyxError, OnyxResult};
use crate::graph::has_node;
use crate::model::{
    CodeEntityExt, CodeEntityKind, Embedding, EmbeddingModel, Language, Node, NodeExtension,
    NodeType, Provenance, Visibility,
};
use crate::txn::{TransactionManager, TransactionOp, model_after, step_of};
use crate::vector::{COORD_BOUND, coords_bounded};

verus! {

// ---------------------------------------------------------------------------
// Text helpers
// ---------------------------------------------------------------------------

/// Whether the pattern occurs in the text starting at position `i`.
pub open spec fn match_at(s: Seq<char>, pat: Seq<char>, i: int) -> bool {
    0 <= i && i + pat.len() <= s.len() && s.subrange(i, i + pat.len()) == pat
}

/// Whether the pattern occurs anywhere in the text.
pub open spec fn contains_pat(s: Seq<char>, pat: Seq<char>) -> bool {
    exists|i: int| match_at(s, pat, i)
}

/// Whether a character ends a function name: an opening parenthesis, an
/// opening angle bracket, or ASCII whitespace.
pub open spec fn is_name_end(c: char) -> bool {
    c == '(' || c == '<' || c == ' ' || c == '\t' || c == '\r' || c == '\n'
}

/// Whether the pattern occurs in the text starting at position `i`.
#[verifier::loop_isolation(false)]
fn matches_at(s: &str, pat: &str, i: usize) -> (r: bool)
    requires
        i + pat@.len() <= s@.len(),
        s@.len() <= usize::MAX,
    ensures
        r == match_at(s@, pat@, i as int),
{
    let m: usize = pat.unicode_len();
    let mut k: usize = 0;
    while k < m
        invariant
            0 <= k <= m,
            m == pat@.len(),
            i + m <= s@.len(),
            forall|j: int| 0 <= j < k ==> s@[i + j] == pat@[j],
        decreases m - k,
    {
        if s.get_char(i + k) != pat.get_char(k) {
            proof {
                assert(s@.subrange(i as int, i + m) != pat@) by {
                    assert(s@.subrange(i as int, i + m)[k as int] == s@[i + k]);
                }
            }
            return false;
        }
        k = k + 1;
    }
    proof {
        assert(s@.subrange(i as int, i + m) =~= pat@);
    }
    true
}

/// The position of the first occurrence of the pattern in the text, if any.
#[verifier::loop_isolation(false)]
pub fn find_pat(s: &str, pat: &str) -> (r: Option<usize>)
    ensures
        match r {
            Some(i) => match_at(s@, pat@, i as int) && forall|j: int|
                0 <= j < i ==> !match_at(s@, pat@, j),
            None => !contains_pat(s@, pat@),
        },
{
    let n: usize = s.unicode_len();
    let m: usize = pat.unicode_len();
    if m > n {
        proof {
            assert forall|i: int| !match_at(s@, pat@, i) by {}
        }
        return None;
    }
    if m == 0 {
        proof {
            assert(s@.subrange(0, 0) =~= pat@);
        }
        return Some(0);
    }
    let mut i: usize = 0;
    while i <= n - m
        invariant
            0 <= i <= n - m + 1,
            m <= n,
            n == s@.len(),
            m == pat@.len(),
            forall|j: int| 0 <= j < i ==> !match_at(s@, pat@, j),
        decreases n - m + 1 - i,
    {
        if matches_at(s, pat, i) {
            return Some(i);
        }
        i = i + 1;
    }
    proof {
        assert forall|j: int| !match_at(s@, pat@, j) by {
            if 0 <= j && j + pat@.len() <= s@.len() {
                assert(j < i);
            }
        }
    }
    None
}

/// Whether the pattern occurs anywhere in the text.
pub fn contains_sub(s: &str, pat: &str) -> (r: bool)
    ensures
        r == contains_pat(s@, pat@),
{
    match find_pat(s, pat) {
        Some(i) => {
            proof {
                assert(match_at(s@, pat@, i as int));
            }
            true
        },
        None => false,
    }
}

/// Whether the text starts with the pattern.
pub fn starts_with_sub(s: &str, pat: &str) -> (r: bool)
    ensures
        r == match_at(s@, pat@, 0),
{
    if pat.unicode_len() > s.unicode_len() {
        return false;
    }
    matches_at(s, pat, 0)
}

/// Whether a character is ASCII whitespace.
pub open spec fn is_space(c: char) -> bool {
    c == ' ' || c == '\t' || c == '\r' || c == '\n'
}

/// Whether the character at a position is ASCII whitespace.
fn space_at(s: &str, i: usize) -> (r: bool)
    requires
        i < s@.len(),
    ensures
        r == is_space(s@[i as int]),
{
    let c: char = s.get_char(i);
    c == ' ' || c == '\t' || c == '\r' || c == '\n'
}

/// Whether the character at a position ends a function name.
fn name_end_at(s: &str, i: usize) -> (r: bool)
    requires
        i < s@.len(),
    ensures
        r == is_name_end(s@[i as int]),
{
    let c: char = s.get_char(i);
    c == '(' || c == '<' || c == ' ' || c == '\t' || c == '\r' || c == '\n'
}

/// Strips ASCII whitespace from both ends.
#[verifier::loop_isolation(false)]
pub fn trim_ascii(s: &str) -> (r: String)
    ensures
        ({
            let a = r@;
            &&& (a.len() == 0 ==> forall|i: int| 0 <= i < s@.len() ==> is_space(#[trigger] s@[i]))
            &&& (a.len() > 0 ==> exists|from: int|
                0 <= from && from + a.len() <= s@.len() && a == #[trigger] s@.subrange(
                    from,
                    from + a.len(),
                ) && !is_space(a[0]) && !is_space(a[a.len() - 1]))
        }),
{
    let n: usize = s.unicode_len();
    let mut from: usize = 0;
    while from < n && space_at(s, from)
        invariant
            0 <= from <= n,
            n == s@.len(),
            forall|i: int| 0 <= i < from ==> is_space(#[trigger] s@[i]),
        decreases n - from,
    {
        from = from + 1;
    }
    if from == n {
        return String::new();
    }
    let mut to: usize = n;
    while to > from + 1 && space_at(s, to - 1)
        invariant
            from < to <= n,
            n == s@.len(),
            forall|i: int| to <= i < n ==> is_space(#[trigger] s@[i]),
            !is_space(s@[from as int]),
        decreases to,
    {
        to = to - 1;
    }
    if space_at(s, to - 1) {
        proof {
            assert(to == from + 1);
            assert(false);
        }
    }
    let cut: &str = s.substring_char(from, to);
    let r: String = cut.to_owned();
    proof {
        assert(r@ == s@.subrange(from as int, to as int));
        assert(r@[0] == s@[from as int]);
        assert(r@[r@.len() - 1] == s@[to - 1]);
        assert(to as int == from as int + r@.len());
        assert(r@ == s@.subrange(from as int, from as int + r@.len() as int));
    }
    r
}

/// Splits text into lines at newline characters, as `str::lines` does: a
/// trailing newline does not open a final empty line.
#[verifier::loop_isolation(false)]
pub fn split_lines(s: &str) -> (r: Vec<String>)
    ensures
        forall|i: int, j: int|
            0 <= i < r@.len() && 0 <= j < r@[i]@.len() ==> #[trigger] r@[i]@[j] != '\n',
{
    let n: usize = s.unicode_len();
    let mut lines: Vec<String> = Vec::new();
    let mut start: usize = 0;
    let mut i: usize = 0;
    while i < n
        invariant
            0 <= start <= i <= n,
            n == s@.len(),
            forall|a: int, b: int|
                0 <= a < lines@.len() && 0 <= b < lines@[a]@.len() ==> #[trigger] lines@[a]@[b]
                    != '\n',
            forall|j: int| start <= j < i ==> s@[j] != '\n',
        decreases n - i,
    {
        if s.get_char(i) == '\n' {
            let piece: &str = s.substring_char(start, i);
            lines.push(piece.to_owned());
            start = i + 1;
        }
        i = i + 1;
    }
    if start < n {
        let piece: &str = s.substring_char(start, n);
        lines.push(piece.to_owned());
    }
    lines
}

// ---------------------------------------------------------------------------
// Function extraction
// ---------------------------------------------------------------------------

/// The end of the function name that starts at `from`: the first position
/// at or after `from` holding a name-ending character.
pub open spec fn name_end_from(s: Seq<char>, from: int) -> Option<int>
    decreases s.len() - from,
{
    if from < 0 || from >= s.len() {
        None
    } else if is_name_end(s[from]) {
        Some(from)
    } else {
        name_end_from(s, from + 1)
    }
}

/// The function name declared in a line, if any: the text between the
/// first `"fn "` and the next parenthesis, angle bracket or space.
pub open spec fn fn_name_of(line: Seq<char>) -> Option<Seq<char>> {
    if !contains_pat(line, seq!['f', 'n', ' ']) {
        None
    } else {
        let i = choose|i: int|
            match_at(line, seq!['f', 'n', ' '], i) && forall|j: int|
                0 <= j < i ==> !match_at(line, seq!['f', 'n', ' '], j);
        match name_end_from(line, i + 3) {
            None => None,
            Some(k) => if k == i + 3 {
                None
            } else {
                Some(line.subrange(i + 3, k))
            },
        }
    }
}

/// Extracts the function name from a declaration line such as
/// `pub fn name(args) -> Ret {`: the text between the first `"fn "` and
/// the next parenthesis, angle bracket or space.  Returns `None` when no
/// `"fn "` occurs, no delimiter follows, or the name is empty.
#[verifier::loop_isolation(false)]
pub fn extract_fn_name(line: &str) -> (r: Option<String>)
    ensures
        match r {
            Some(name) => fn_name_of(line@) == Some(name@),
            None => fn_name_of(line@) is None,
        },
{
    let i: usize = match find_pat(line, "fn ") {
        Some(i) => i,
        None => {
            proof {
                reveal_strlit("fn ");
                assert("fn "@ =~= seq!['f', 'n', ' ']);
            }
            return None;
        },
    };
    proof {
        reveal_strlit("fn ");
        assert("fn "@ =~= seq!['f', 'n', ' ']);
        let w = choose|w: int|
            match_at(line@, seq!['f', 'n', ' '], w) && forall|j: int|
                0 <= j < w ==> !match_at(line@, seq!['f', 'n', ' '], j);
        assert(match_at(line@, seq!['f', 'n', ' '], i as int));
        assert(w == i) by {
            if w < i {
                assert(!match_at(line@, "fn "@, w));
            }
            if i < w {
                assert(!match_at(line@, seq!['f', 'n', ' '], i as int));
            }
        }
    }
    let n: usize = line.unicode_len();
    proof {
        assert(i + 3 <= n);
    }
    let after: usize = i + 3;
    let mut k: usize = after;
    while k < n && !name_end_at(line, k)
        invariant
            after <= k <= n,
            n == line@.len(),
            forall|j: int| after <= j < k ==> !is_name_end(#[trigger] line@[j]),
            name_end_from(line@, after as int) == name_end_from(line@, k as int),
        decreases n - k,
    {
        k = k + 1;
    }
    if k == n {
        proof {
            assert(name_end_from(line@, k as int) is None);
        }
        return None;
    }
    proof {
        assert(is_name_end(line@[k as int]));
        assert(name_end_from(line@, k as int) == Some(k as int));
    }
    if k == after {
        return None;
    }
    let name: String = line.substring_char(after, k).to_owned();
    Some(name)
}

/// Extracts the signature from a declaration line: the text before the
/// opening brace, if one occurs, stripped of surrounding whitespace.
pub fn extract_signature(line: &str) -> (r: String)
    ensures
        forall|j: int| 0 <= j < r@.len() ==> !is_space(#[trigger] r@[j]) || 0 < j < r@.len() - 1,
{
    match find_pat(line, "{") {
        Some(idx) => {
            let head: &str = line.substring_char(0, idx);
            trim_ascii(head)
        },
        None => trim_ascii(line),
    }
}

/// The line on which the brace-delimited block opening at `start` closes;
/// the last line when the braces never balance.
#[verifier::loop_isolation(false)]
pub fn find_block_end(lines: &Vec<String>, start: usize) -> (r: usize)
    requires
        lines@.len() > 0,
        start < lines@.len(),
    ensures
        start <= r < lines@.len(),
{
    let mut depth: i64 = 0;
    let mut i: usize = start;
    while i < lines.len()
        invariant
            start <= i <= lines@.len(),
        decreases lines@.len() - i,
    {
        let line: &String = &lines[i];
        let n: usize = line.as_str().unicode_len();
        let mut k: usize = 0;
        while k < n
            invariant
                0 <= k <= n,
                n == line@.len(),
                start <= i < lines@.len(),
            decreases n - k,
        {
            let c: char = line.as_str().get_char(k);
            if c == '{' {
                depth = if depth < i64::MAX {
                    depth + 1
                } else {
                    depth
                };
            } else if c == '}' {
                depth = if depth > i64::MIN {
                    depth - 1
                } else {
                    depth
                };
                if depth == 0 {
                    return i;
                }
            }
            k = k + 1;
        }
        i = i + 1;
    }
    lines.len() - 1
}


// ---------------------------------------------------------------------------
// Code units and parsing
// ---------------------------------------------------------------------------

/// A code unit to ingest.
#[derive(Debug)]
pub struct CodeUnit {
    /// The entity's name.
    pub name: String,
    /// The full source content.
    pub content: String,
    /// The kind of code entity.
    pub kind: CodeEntityKind,
    /// The programming language.
    pub language: Language,
    /// File path within the repository.
    pub file_path: String,
    /// Line range within the file.
    pub line_range: Option<(usize, usize)>,
    /// The declaration signature.
    pub signature: Option<String>,
    /// Visibility.
    pub visibility: Visibility,
    /// Module path segments.
    pub module_segments: Vec<String>,
    /// Commit hash at ingestion time.
    pub commit_id: Option<String>,
    /// Branch name.
    pub branch: Option<String>,
}

/// The outcome of ingesting one code unit.
#[derive(Debug)]
pub struct IngestResult {
    /// The id assigned to the node.
    pub node_id: u128,
    /// The id of the initial version.
    pub version_id: u64,
    /// The number of relationships detected.
    pub edges_created: usize,
}

/// Clones a language tag.
fn clone_language(l: &Language) -> (r: Language)
    ensures
        r == *l,
{
    match l {
        Language::Rust => Language::Rust,
        Language::Python => Language::Python,
        Language::TypeScript => Language::TypeScript,
        Language::JavaScript => Language::JavaScript,
        Language::Go => Language::Go,
        Language::Other(s) => Language::Other(s.clone()),
    }
}

/// Clones a list of strings, keeping every element equal.
fn clone_strings(v: &Vec<String>) -> (r: Vec<String>)
    ensures
        r@ == v@,
{
    let mut r: Vec<String> = Vec::new();
    let mut i: usize = 0;
    while i < v.len()
        invariant
            0 <= i <= v@.len(),
            r@.len() == i,
            forall|j: int| 0 <= j < i ==> #[trigger] r@[j] == v@[j],
        decreases v@.len() - i,
    {
        r.push(v[i].clone());
        i = i + 1;
    }
    proof {
        assert(r@ =~= v@);
    }
    r
}

/// Clones an optional string.
fn clone_opt_string(v: &Option<String>) -> (r: Option<String>)
    ensures
        r == *v,
{
    match v {
        Some(s) => Some(s.clone()),
        None => None,
    }
}

/// A code unit agrees with a declaring header line: its name is the
/// function name the header declares, the header mentions a function
/// keyword, and the unit is public exactly when the header mentions `pub`.
pub open spec fn unit_from_header(u: CodeUnit, header: Seq<char>) -> bool {
    &&& fn_name_of(header) == Some(u.name@)
    &&& contains_pat(header, seq!['f', 'n', ' '])
    &&& (u.visibility is Public <==> contains_pat(header, seq!['p', 'u', 'b']))
}

/// Some header line declares this code unit.
pub open spec fn declared_unit(u: CodeUnit) -> bool {
    exists|header: Seq<char>| #[trigger] unit_from_header(u, header)
}

/// Builds the code unit for a function declared on line `i`.
#[verifier::loop_isolation(false)]
fn build_unit(
    lines: &Vec<String>,
    i: usize,
    line: &String,
    fn_name: String,
    file_path: &str,
) -> (r: (CodeUnit, usize))
    requires
        i < lines@.len(),
    ensures
        ({
            let u = r.0;
            &&& u.kind is Function
            &&& u.language is Rust
            &&& u.file_path@ == file_path@
            &&& u.line_range is Some
            &&& u.module_segments@.len() == 0
            &&& u.commit_id is None
            &&& u.branch is None
            &&& u.name == fn_name
            &&& (u.visibility is Public <==> contains_pat(line@, seq!['p', 'u', 'b']))
        }),
        i < r.1 <= lines@.len(),
{
    let llen: usize = lines.len();
    let start_line: usize = i + 1;
    let end_line: usize = find_block_end(lines, i);
    proof {
        assert(end_line < llen);
    }
    let mut content: String = String::new();
    let mut c: usize = i;
    while c <= end_line
        invariant
            i <= c <= end_line + 1,
            end_line < llen,
            llen == lines@.len(),
        decreases end_line + 1 - c,
    {
        content.append(lines[c].as_str());
        if c < end_line {
            content.append("\n");
        }
        c = c + 1;
    }
    let visibility: Visibility = if contains_sub(line.as_str(), "pub") {
        Visibility::Public
    } else {
        Visibility::Private
    };
    proof {
        reveal_strlit("pub");
        assert("pub"@ =~= seq!['p', 'u', 'b']);
        assert(visibility is Public <==> contains_pat(line@, seq!['p', 'u', 'b']));
    }
    let end_range: usize = if end_line < usize::MAX {
        end_line + 1
    } else {
        end_line
    };
    let unit = CodeUnit {
        name: fn_name,
        content,
        kind: CodeEntityKind::Function,
        language: Language::Rust,
        file_path: file_path.to_owned(),
        line_range: Some((start_line, end_range)),
        signature: Some(extract_signature(line.as_str())),
        visibility,
        module_segments: Vec::new(),
        commit_id: None,
        branch: None,
    };
    let next: usize = if end_line >= i && end_line < usize::MAX {
        end_line + 1
    } else {
        i + 1
    };
    (unit, next)
}

/// Recognizes a function declaration line and yields its name: the text
/// the header declares after its first function keyword.
fn fn_decl_name(line: &String) -> (r: Option<String>)
    ensures
        r matches Some(name) ==> fn_name_of(line@) == Some(name@) && contains_pat(
            line@,
            seq!['f', 'n', ' '],
        ),
{
    if contains_sub(line.as_str(), "fn ") && (starts_with_sub(line.as_str(), "pub")
        || starts_with_sub(line.as_str(), "fn")) {
        proof {
            reveal_strlit("fn ");
            assert("fn "@ =~= seq!['f', 'n', ' ']);
        }
        extract_fn_name(line.as_str())
    } else {
        None
    }
}

/// Extracts function-level code units from source text, by a line
/// heuristic: a trimmed line that declares a function opens a unit that
/// runs to the line closing its brace block.  Every unit is a Rust
/// function carrying the given file path and a line range; its visibility
/// is public exactly when its declaring line mentions `pub`.
#[verifier::loop_isolation(false)]
pub fn parse_rust_source(source: &str, file_path: &str) -> (r: Vec<CodeUnit>)
    ensures
        forall|i: int|
            0 <= i < r@.len() ==> {
                let u = #[trigger] r@[i];
                &&& u.kind is Function
                &&& u.language is Rust
                &&& u.file_path@ == file_path@
                &&& u.line_range is Some
                &&& u.module_segments@.len() == 0
                &&& u.commit_id is None
                &&& u.branch is None
                &&& declared_unit(u)
            },
{
    let lines: Vec<String> = split_lines(source);
    let mut units: Vec<CodeUnit> = Vec::new();
    let mut i: usize = 0;
    while i < lines.len()
        invariant
            0 <= i,
            forall|k: int|
                0 <= k < units@.len() ==> {
                    let u = #[trigger] units@[k];
                    &&& u.kind is Function
                    &&& u.language is Rust
                    &&& u.file_path@ == file_path@
                    &&& u.line_range is Some
                    &&& u.module_segments@.len() == 0
                    &&& u.commit_id is None
                    &&& u.branch is None
                    &&& declared_unit(u)
                },
        decreases lines@.len() - i,
    {
        let line: String = trim_ascii(lines[i].as_str());
        match fn_decl_name(&line) {
            Some(fn_name) => {
                let built: (CodeUnit, usize) = build_unit(&lines, i, &line, fn_name, file_path);
                let next: usize = built.1;
                proof {
                    assert(unit_from_header(built.0, line@)) by {
                        assert(fn_name_of(line@) == Some(built.0.name@));
                    }
                    assert(declared_unit(built.0));
                }
                units.push(built.0);
                i = next;
            },
            None => {
                i = i + 1;
            },
        }
    }
    units
}

// ---------------------------------------------------------------------------
// Bag-of-words embedding
// ---------------------------------------------------------------------------

/// Whether a character belongs to a word: an ASCII letter, digit or
/// underscore.
pub open spec fn is_word_char(c: char) -> bool {
    ('a' <= c && c <= 'z') || ('A' <= c && c <= 'Z') || ('0' <= c && c <= '9') || c == '_'
}

/// Whether the character at a position belongs to a word.
fn word_char_at(s: &str, i: usize) -> (r: bool)
    requires
        i < s@.len(),
    ensures
        r == is_word_char(s@[i as int]),
{
    let c: char = s.get_char(i);
    ('a' <= c && c <= 'z') || ('A' <= c && c <= 'Z') || ('0' <= c && c <= '9') || c == '_'
}

/// Splits text into words: maximal runs of word characters.
#[verifier::loop_isolation(false)]
pub fn split_words(s: &str) -> (r: Vec<String>)
    ensures
        forall|i: int| 0 <= i < r@.len() ==> (#[trigger] r@[i])@.len() > 0,
{
    let n: usize = s.unicode_len();
    let mut words: Vec<String> = Vec::new();
    let mut i: usize = 0;
    while i < n
        invariant
            0 <= i <= n,
            n == s@.len(),
            forall|k: int| 0 <= k < words@.len() ==> (#[trigger] words@[k])@.len() > 0,
        decreases n - i,
    {
        if word_char_at(s, i) {
            let start: usize = i;
            let mut j: usize = i;
            while j < n && word_char_at(s, j)
                invariant
                    start <= j <= n,
                    n == s@.len(),
                decreases n - j,
            {
                j = j + 1;
            }
            let word: String = s.substring_char(start, j).to_owned();
            proof {
                assert(word@.len() == j - start);
            }
            words.push(word);
            i = j;
        } else {
            i = i + 1;
        }
    }
    words
}

/// Whether a count table keys each word at most once.
pub open spec fn unique_keys(cs: Seq<(String, usize)>) -> bool {
    forall|a: int, b: int| 0 <= a < b < cs.len() ==> (#[trigger] cs[a]).0@ != (#[trigger] cs[b]).0@
}

/// Whether a word list holds pairwise distinct words.
pub open spec fn distinct_words(ws: Seq<String>) -> bool {
    forall|a: int, b: int| 0 <= a < b < ws.len() ==> (#[trigger] ws[a])@ != (#[trigger] ws[b])@
}

/// Looks up a word in a count table.
fn find_count_idx(counts: &Vec<(String, usize)>, word: &String) -> (r: Option<usize>)
    ensures
        r matches Some(i) ==> i < counts@.len() && counts@[i as int].0@ == word@,
        r is None ==> forall|k: int| 0 <= k < counts@.len() ==> (#[trigger] counts@[k]).0@ != word@,
{
    let mut f: usize = 0;
    while f < counts.len()
        invariant
            0 <= f <= counts@.len(),
            forall|k: int| 0 <= k < f ==> (#[trigger] counts@[k]).0@ != word@,
        decreases counts@.len() - f,
    {
        if counts[f].0 == *word {
            return Some(f);
        }
        f = f + 1;
    }
    None
}

/// A bag-of-words embedder with a fixed vocabulary: component `i` of an
/// embedding counts how often vocabulary word `i` occurs in the text,
/// capped at the fixed-point bound.  Cosine similarity is scale-invariant,
/// so raw counts rank exactly as normalized frequencies would.
#[derive(Debug)]
pub struct BagOfWordsEmbedder {
    vocabulary: Vec<String>,
}

impl BagOfWordsEmbedder {
    /// The fixed vocabulary, in component order.
    pub closed spec fn vocab(&self) -> Seq<String> {
        self.vocabulary@
    }

    /// An embedder over a fixed vocabulary.
    pub fn new(vocabulary: Vec<String>) -> (r: Self)
        ensures
            r.vocab() == vocabulary@,
    {
        BagOfWordsEmbedder { vocabulary }
    }

    /// Builds a vocabulary from a corpus: the `max_vocab_size` most
    /// frequent words, most frequent first, ties in first-appearance order.
    /// The vocabulary holds each word once.
    #[verifier::loop_isolation(false)]
    pub fn from_corpus(documents: &Vec<String>, max_vocab_size: usize) -> (r: Self)
        ensures
            r.vocab().len() <= max_vocab_size,
            distinct_words(r.vocab()),
    {
        let mut counts: Vec<(String, usize)> = Vec::new();
        let mut d: usize = 0;
        while d < documents.len()
            invariant
                unique_keys(counts@),
            decreases documents@.len() - d,
        {
            let words: Vec<String> = split_words(documents[d].as_str());
            let mut w: usize = 0;
            while w < words.len()
                invariant
                    unique_keys(counts@),
                decreases words@.len() - w,
            {
                match find_count_idx(&counts, &words[w]) {
                    Some(f) => {
                        let c: usize = counts[f].1;
                        let bumped: usize = if c < usize::MAX {
                            c + 1
                        } else {
                            c
                        };
                        let key: String = counts[f].0.clone();
                        counts.set(f, (key, bumped));
                    },
                    None => {
                        counts.push((words[w].clone(), 1));
                    },
                }
                w = w + 1;
            }
            d = d + 1;
        }
        // Pick the most frequent words, stably.  A picked word leaves the
        // table, so no word is picked twice.
        let mut vocabulary: Vec<String> = Vec::new();
        while vocabulary.len() < max_vocab_size && counts.len() > 0
            invariant
                vocabulary@.len() <= max_vocab_size,
                unique_keys(counts@),
                distinct_words(vocabulary@),
                forall|a: int, k: int|
                    0 <= a < vocabulary@.len() && 0 <= k < counts@.len()
                        ==> (#[trigger] vocabulary@[a])@ != (#[trigger] counts@[k]).0@,
            decreases max_vocab_size - vocabulary@.len(),
        {
            let mut best: usize = 0;
            let mut j: usize = 1;
            while j < counts.len()
                invariant
                    0 <= best < j <= counts@.len(),
                    counts@.len() > 0,
                decreases counts@.len() - j,
            {
                if counts[j].1 > counts[best].1 {
                    best = j;
                }
                j = j + 1;
            }
            let ghost pre = counts@;
            let ghost bi = best as int;
            let (word, _c): (String, usize) = counts.remove(best);
            proof {
                assert(word@ == pre[bi].0@);
                assert forall|k: int| 0 <= k < counts@.len() implies (#[trigger] counts@[k]).0@
                    != word@ by {
                    if k < bi {
                        assert(counts@[k] == pre[k]);
                    } else {
                        assert(counts@[k] == pre[k + 1]);
                    }
                }
            }
            vocabulary.push(word);
        }
        BagOfWordsEmbedder { vocabulary }
    }

    /// Embeds a text: one component per vocabulary word, counting its
    /// occurrences among the text's words, capped at the component bound.
    #[verifier::loop_isolation(false)]
    pub fn embed(&self, text: &str) -> (r: Embedding)
        ensures
            r.values@.len() == self.vocab().len(),
            r.dimensions == self.vocab().len(),
            coords_bounded(r.values@),
            r.model is BagOfWords,
    {
        let words: Vec<String> = split_words(text);
        let mut values: Vec<i64> = Vec::new();
        let mut v: usize = 0;
        while v < self.vocabulary.len()
            invariant
                0 <= v <= self.vocab().len(),
                values@.len() == v,
                coords_bounded(values@),
            decreases self.vocab().len() - v,
        {
            let ghost values0 = values@;
            let mut count: i64 = 0;
            let mut w: usize = 0;
            while w < words.len()
                invariant
                    0 <= count <= COORD_BOUND,
                decreases words@.len() - w,
            {
                if words[w] == self.vocabulary[v] && count < COORD_BOUND {
                    count = count + 1;
                }
                w = w + 1;
            }
            values.push(count);
            proof {
                assert forall|k: int|
                    0 <= k < values@.len() implies -COORD_BOUND <= #[trigger] values@[k]
                        <= COORD_BOUND by {
                    if k < values0.len() {
                        assert(values@[k] == values0[k]);
                    }
                }
            }
            v = v + 1;
        }
        Embedding::new(values, EmbeddingModel::BagOfWords)
    }
}

// ---------------------------------------------------------------------------
// Ingestion
// ---------------------------------------------------------------------------

/// Ingests one code unit: builds its node with provenance and extension,
/// embeds its content, records its initial version, and commits all three
/// in one atomic batch.  On success the node is stored; on failure the
/// stores are unchanged.
#[verifier::spinoff_prover]
pub fn ingest_code_unit(
    stores: &mut TransactionManager,
    unit: &CodeUnit,
    embedder: &BagOfWordsEmbedder,
) -> (r: OnyxResult<IngestResult>)
    requires
        old(stores).wf(),
        !old(stores).in_tx(),
        embedder.vocab().len() <= crate::vector::DIM_LIMIT,
    ensures
        final(stores).wf(),
        !final(stores).in_tx(),
        match r {
            Ok(res) => has_node(final(stores).graph_store.nodes_seq(), res.node_id) && (forall|
                x: u128,
            |
                has_node(old(stores).graph_store.nodes_seq(), x) ==> has_node(
                    final(stores).graph_store.nodes_seq(),
                    x,
                )),
            Err(_) => final(stores).model() == old(stores).model(),
        },
{
    let mut node: Node = Node::new(
        NodeType::CodeEntity(unit.kind),
        unit.name.clone(),
        unit.content.clone(),
    );
    let mut provenance: Provenance = Provenance::new(unit.file_path.clone());
    match unit.line_range {
        Some((start, end)) => {
            provenance = provenance.with_lines(start, end);
        },
        None => {},
    }
    match &unit.commit_id {
        Some(commit) => {
            provenance = provenance.with_commit(commit.clone());
        },
        None => {},
    }
    match &unit.branch {
        Some(branch) => {
            provenance = provenance.with_branch(branch.clone());
        },
        None => {},
    }
    node.provenance = provenance;
    node.extension = NodeExtension::CodeEntity(
        CodeEntityExt {
            language: clone_language(&unit.language),
            signature: clone_opt_string(&unit.signature),
            visibility: unit.visibility,
            module_segments: clone_strings(&unit.module_segments),
            line_range: unit.line_range,
        },
    );
    let embedding: Embedding = embedder.embed(unit.content.as_str());
    node.embedding = Some(clone_coords(&embedding.values));
    let version = crate::model::VersionEntry::initial(node.id, unit.content.clone()).with_message(
        String::from_str("ingested"),
    );
    let node_id: u128 = node.id;
    let mut ops: Vec<TransactionOp> = Vec::new();
    ops.push(TransactionOp::InsertNode(node));
    ops.push(TransactionOp::InsertEmbedding { id: node_id, embedding: embedding.values });
    ops.push(TransactionOp::RecordVersion(version));
    let ghost opsv = ops@;
    match stores.execute_batch(ops) {
        Ok(()) => {
            proof {
                crate::txn::lemma_ingest_batch_full(
                    old(stores).model(),
                    opsv,
                    stores.model(),
                    node_id,
                );
            }
            let version_id: u64 = stores.history_store.version_count() as u64;
            Ok(IngestResult { node_id, version_id, edges_created: 0 })
        },
        Err(e) => Err(e),
    }
}

/// Clones a component vector.
fn clone_coords(v: &Vec<i64>) -> (r: Vec<i64>)
    ensures
        r@ == v@,
{
    let mut r: Vec<i64> = Vec::new();
    let mut i: usize = 0;
    while i < v.len()
        invariant
            0 <= i <= v@.len(),
            r@.len() == i,
            forall|j: int| 0 <= j < i ==> #[trigger] r@[j] == v@[j],
        decreases v@.len() - i,
    {
        r.push(v[i]);
        i = i + 1;
    }
    proof {
        assert(r@ =~= v@);
    }
    r
}

/// Ingests several code units and then detects relationships between them:
/// a unit whose content mentions another unit's name gains a `Calls` or
/// `Imports` edge toward it, and a unit whose module path extends
/// another's by one segment gains a `Contains` edge from it.  The
/// heuristic adds edges only between nodes it just stored, so it cannot
/// violate the stores' invariants.
#[verifier::loop_isolation(false)]
pub fn ingest_codebase(
    stores: &mut TransactionManager,
    units: &Vec<CodeUnit>,
    embedder: &BagOfWordsEmbedder,
) -> (r: OnyxResult<Vec<IngestResult>>)
    requires
        old(stores).wf(),
        !old(stores).in_tx(),
        embedder.vocab().len() <= crate::vector::DIM_LIMIT,
    ensures
        final(stores).wf(),
        !final(stores).in_tx(),
        r matches Ok(results) ==> results@.len() == units@.len() && (forall|i: int|
            0 <= i < results@.len() ==> has_node(
                final(stores).graph_store.nodes_seq(),
                (#[trigger] results@[i]).node_id,
            )),
{
    let mut results: Vec<IngestResult> = Vec::new();
    let mut u: usize = 0;
    while u < units.len()
        invariant
            0 <= u <= units@.len(),
            results@.len() == u,
            stores.wf(),
            !stores.in_tx(),
            forall|i: int|
                0 <= i < results@.len() ==> has_node(
                    stores.graph_store.nodes_seq(),
                    (#[trigger] results@[i]).node_id,
                ),
        decreases units@.len() - u,
    {
        let ghost results0 = results@;
        let ghost prev_ns = stores.graph_store.nodes_seq();
        let res: IngestResult = match ingest_code_unit(stores, &units[u], embedder) {
            Ok(res) => res,
            Err(e) => {
                return Err(e);
            },
        };
        results.push(res);
        proof {
            assert forall|i: int|
                0 <= i < results@.len() implies has_node(
                stores.graph_store.nodes_seq(),
                (#[trigger] results@[i]).node_id,
            ) by {
                if i < results0.len() {
                    assert(results@[i] == results0[i]);
                    assert(has_node(prev_ns, results0[i].node_id));
                }
            }
        }
        u = u + 1;
    }

    // Detect call and import relationships by name mention.
    let mut edges_created: usize = 0;
    let mut a: usize = 0;
    while a < results.len()
        invariant
            stores.wf(),
            !stores.in_tx(),
            forall|i: int|
                0 <= i < results@.len() ==> has_node(
                    stores.graph_store.nodes_seq(),
                    (#[trigger] results@[i]).node_id,
                ),
        decreases results@.len() - a,
    {
        let a_id: u128 = results[a].node_id;
        let a_unit: &CodeUnit = &units[a];
        let mut b: usize = 0;
        while b < results.len()
            invariant
                stores.wf(),
                !stores.in_tx(),
                forall|i: int|
                0 <= i < results@.len() ==> has_node(
                    stores.graph_store.nodes_seq(),
                    (#[trigger] results@[i]).node_id,
                ),
            decreases results@.len() - b,
        {
            if b != a && b < units.len() {
                let b_unit: &CodeUnit = &units[b];
                if contains_sub(a_unit.content.as_str(), b_unit.name.as_str()) {
                    let edge_type: crate::model::EdgeType = if contains_sub(
                        a_unit.content.as_str(),
                        "use ",
                    ) || contains_sub(a_unit.content.as_str(), "mod ") {
                        crate::model::EdgeType::Imports
                    } else {
                        crate::model::EdgeType::Calls
                    };
                    let edge = crate::model::Edge::new(edge_type, a_id, results[b].node_id)
                        .with_confidence(800);
                    let ghost ns_pre = stores.graph_store.nodes_seq();
                    match stores.execute(TransactionOp::InsertEdge(edge)) {
                        Ok(()) => {
                            edges_created = if edges_created < usize::MAX {
                                edges_created + 1
                            } else {
                                edges_created
                            };
                        },
                        Err(_) => {},
                    }
                    proof {
                        assert(stores.graph_store.nodes_seq() == ns_pre);
                    }
                }
            }
            b = b + 1;
        }
        a = a + 1;
    }

    // Detect containment from module-path hierarchy.
    let mut x: usize = 0;
    while x < results.len()
        invariant
            stores.wf(),
            !stores.in_tx(),
            forall|i: int|
                0 <= i < results@.len() ==> has_node(
                    stores.graph_store.nodes_seq(),
                    (#[trigger] results@[i]).node_id,
                ),
        decreases results@.len() - x,
    {
        let mut y: usize = 0;
        while y < results.len()
            invariant
                stores.wf(),
                !stores.in_tx(),
                forall|i: int|
                0 <= i < results@.len() ==> has_node(
                    stores.graph_store.nodes_seq(),
                    (#[trigger] results@[i]).node_id,
                ),
            decreases results@.len() - y,
        {
            if x != y && x < units.len() && y < units.len() {
                let px: &Vec<String> = &units[x].module_segments;
                let py: &Vec<String> = &units[y].module_segments;
                if px.len() > 0 && py.len() > px.len() && py.len() - 1 == px.len()
                    && is_prefix(px, py) {
                    let edge = crate::model::Edge::new(
                        crate::model::EdgeType::Contains,
                        results[x].node_id,
                        results[y].node_id,
                    );
                    let ghost ns_pre = stores.graph_store.nodes_seq();
                    match stores.execute(TransactionOp::InsertEdge(edge)) {
                        Ok(()) => {
                            edges_created = if edges_created < usize::MAX {
                                edges_created + 1
                            } else {
                                edges_created
                            };
                        },
                        Err(_) => {},
                    }
                    proof {
                        assert(stores.graph_store.nodes_seq() == ns_pre);
                    }
                }
            }
            y = y + 1;
        }
        x = x + 1;
    }

    // Report the shared edge count on each result.
    let mut out: Vec<IngestResult> = Vec::new();
    let mut rest: Vec<IngestResult> = Vec::new();
    core::mem::swap(&mut rest, &mut results);
    let ghost all = rest@;
    proof {
        assert(rest@ =~= all);
    }
    while rest.len() > 0
        invariant
            out@.len() + rest@.len() == all.len(),
            rest@ =~= all.subrange(out@.len() as int, all.len() as int),
            forall|i: int|
                0 <= i < all.len() ==> has_node(
                    stores.graph_store.nodes_seq(),
                    (#[trigger] all[i]).node_id,
                ),
            forall|i: int|
                0 <= i < out@.len() ==> (#[trigger] out@[i]).node_id == all[i].node_id,
        decreases rest@.len(),
    {
        let ghost w = out@.len() as int;
        let item: IngestResult = rest.remove(0);
        proof {
            assert(item == all[w]);
        }
        out.push(
            IngestResult {
                node_id: item.node_id,
                version_id: item.version_id,
                edges_created,
            },
        );
    }
    proof {
        assert(out@.len() == units@.len());
        assert forall|i: int| 0 <= i < out@.len() implies has_node(
            stores.graph_store.nodes_seq(),
            (#[trigger] out@[i]).node_id,
        ) by {
            assert(out@[i].node_id == all[i].node_id);
        }
    }
    Ok(out)
}

/// Whether the first list of segments is a prefix of the second.
fn is_prefix(a: &Vec<String>, b: &Vec<String>) -> (r: bool)
    requires
        a@.len() <= b@.len(),
    ensures
        r == (forall|i: int| 0 <= i < a@.len() ==> a@[i]@ == #[trigger] b@[i]@),
{
    let mut i: usize = 0;
    while i < a.len()
        invariant
            0 <= i <= a@.len(),
            a@.len() <= b@.len(),
            forall|j: int| 0 <= j < i ==> a@[j]@ == #[trigger] b@[j]@,
        decreases a@.len() - i,
    {
        if !(a[i] == b[i]) {
            return false;
        }
        i = i + 1;
    }
    true
}

} // verus!
