use vstd::prelude::*;
use vstd::string::StringExecFns;
use crate::text::{opt_text, texts};
use crate::violation::Violation;

verus! {

/// What `str::trim` leaves of a text.
pub uninterp spec fn trimmed(s: Seq<char>) -> Seq<char>;

/// The printed form of the path that `syn` reads from a text, where it reads
/// one. The tokens are printed by `proc-macro2` itself, which is built
/// without the compiler's token streams, so the form does not depend on
/// where the code runs.
pub uninterp spec fn path_of(s: Seq<char>) -> Option<Seq<char>>;

/// The printed forms of the constraint clauses that `syn` reads from a
/// comma-separated text, where it reads them. They are printed as the paths
/// are.
pub uninterp spec fn where_predicates_of(s: Seq<char>) -> Option<Seq<Seq<char>>>;

/// Whether the letters `dyn` stand at position `i` of the text.
pub open spec fn dyn_at(s: Seq<char>, i: int) -> bool {
    0 <= i && i + 3 <= s.len() && s[i] == 'd' && s[i + 1] == 'y' && s[i + 2] == 'n'
}

/// Whether the lexer may pass over the character as a blank. Every character
/// outside ASCII is counted, since some of them are blanks.
pub open spec fn passed_over(c: char) -> bool {
    c == ' ' || (9 <= c as u32 && c as u32 <= 13) || c as u32 > 127
}

/// Whether the character starts a lifetime or a comment.
pub open spec fn starts_mark(c: char) -> bool {
    c == '\'' || c == '/'
}

/// Whether `dyn` stands at position `i` and only blanks stand between it and
/// position `p`.
pub open spec fn blanks_since_dyn(s: Seq<char>, i: int, p: int) -> bool {
    &&& dyn_at(s, i)
    &&& i + 3 <= p <= s.len()
    &&& forall|k: int| i + 3 <= k < p ==> passed_over(#[trigger] s[k])
}

/// Whether `dyn` stands at position `i` and is followed, after blanks, by an
/// apostrophe or a slash at position `j`.
pub open spec fn dyn_before_mark(s: Seq<char>, i: int, j: int) -> bool {
    blanks_since_dyn(s, i, j) && j < s.len() && starts_mark(s[j])
}

/// Whether the text is handed to the parser. It is not where some `dyn` is
/// followed, after blanks, by an apostrophe or by a slash, behind which a
/// comment may hide one: a trait object whose first bound is a lifetime is
/// written so, and the parser of types cannot take one after a binder.
pub open spec fn parseable(s: Seq<char>) -> bool {
    forall|i: int, j: int| !#[trigger] dyn_before_mark(s, i, j)
}

/// Whether `part` is cut out of `whole` in one piece.
pub open spec fn is_part_of(part: Seq<char>, whole: Seq<char>) -> bool {
    exists|i: int, j: int| 0 <= i <= j <= whole.len() && part == #[trigger] whole.subrange(i, j)
}

/// The text without its spaces.
pub open spec fn without_spaces(s: Seq<char>) -> Seq<char> {
    s.filter(|c: char| c != ' ')
}

/// Calls `str::trim`. The result is the one that `trim` gives for this text,
/// and it is a part of the text, cut out in one piece.
#[verifier::external_body]
fn trim(s: &String) -> (r: String)
    ensures
        r@ == trimmed(s@),
        is_part_of(r@, s@),
{
    s.trim().to_string()
}

/// Calls `syn::parse_str` for a `syn::Path` and prints what was read with
/// `quote::ToTokens`. The result is `None` exactly where `syn` rejects the
/// text; nothing else is claimed but that equal texts give equal results.
/// Texts on which the parser of types inside a path does not return are left
/// out.
#[verifier::external_body]
fn parse_path(s: &String) -> (r: Option<String>)
    requires
        parseable(s@),
    ensures
        opt_text(r) == path_of(s@),
{
    match syn::parse_str::<syn::Path>(s.as_str()) {
        Ok(path) => Some(quote::ToTokens::into_token_stream(path).to_string()),
        Err(_) => None,
    }
}

/// Calls `syn::punctuated::Punctuated::parse_terminated` for
/// `syn::WherePredicate` items separated by commas, through
/// `syn::parse::Parser::parse_str`, and prints each clause with
/// `quote::ToTokens`. The result is `None` exactly where `syn` rejects the
/// text; nothing else is claimed but that equal texts give equal results.
/// Texts on which the parser of types inside a clause does not return are
/// left out.
#[verifier::external_body]
fn parse_where_predicates(s: &String) -> (r: Option<Vec<String>>)
    requires
        parseable(s@),
    ensures
        r.is_some() == where_predicates_of(s@).is_some(),
        r.is_some() ==> texts(r.unwrap()@) == where_predicates_of(s@).unwrap(),
{
    let parser = syn::punctuated::Punctuated::<syn::WherePredicate, syn::token::Comma>::parse_terminated;
    match syn::parse::Parser::parse_str(parser, s.as_str()) {
        Ok(clauses) => Some(clauses.iter().map(|c| quote::ToTokens::into_token_stream(c).to_string()).collect()),
        Err(_) => None,
    }
}

/// Decides whether a text is handed to the parser.
pub fn is_parseable(s: &str) -> (r: bool)
    ensures
        r == parseable(s@),
{
    let n = s.unicode_len();
    let mut after = false;
    let mut last = ' ';
    let mut before_last = ' ';
    let mut p: usize = 0;
    while p < n
        invariant
            p <= n,
            n == s@.len(),
            p >= 1 ==> last == s@[p - 1],
            p >= 2 ==> before_last == s@[p - 2],
            after == (exists|i: int| blanks_since_dyn(s@, i, p as int)),
            forall|i: int, j: int| j < p ==> !#[trigger] dyn_before_mark(s@, i, j),
        decreases n - p,
    {
        let c = s.get_char(p);
        if after && (c == '\'' || c == '/') {
            proof {
                let i = choose|i: int| blanks_since_dyn(s@, i, p as int);
                assert(dyn_before_mark(s@, i, p as int));
            }
            return false;
        }
        let blank = c == ' ' || (9 <= c as u32 && c as u32 <= 13) || c as u32 > 127;
        let word = p >= 2 && before_last == 'd' && last == 'y' && c == 'n';
        let next = (after && blank) || word;
        proof {
            let q: int = p + 1;
            if after && blank {
                let i = choose|i: int| blanks_since_dyn(s@, i, p as int);
                assert(blanks_since_dyn(s@, i, q));
            }
            if word {
                assert(blanks_since_dyn(s@, p - 2, q));
            }
            if exists|i: int| blanks_since_dyn(s@, i, q) {
                let i = choose|i: int| blanks_since_dyn(s@, i, q);
                if i + 3 <= p {
                    assert(passed_over(s@[p as int]));
                    assert(blanks_since_dyn(s@, i, p as int));
                }
            }
            assert(next == (exists|i: int| blanks_since_dyn(s@, i, q)));
        }
        after = next;
        before_last = last;
        last = c;
        p += 1;
    }
    true
}

/// Removes the spaces from a text.
pub fn remove_spaces(s: &str) -> (r: String)
    ensures
        r@ == without_spaces(s@),
{
    let n = s.unicode_len();
    let mut r = String::new();
    let mut i: usize = 0;
    proof {
        reveal(Seq::filter);
        assert(s@.subrange(0, 0) =~= Seq::<char>::empty());
    }
    while i < n
        invariant
            i <= n,
            n == s@.len(),
            r@ == without_spaces(s@.subrange(0, i as int)),
        decreases n - i,
    {
        let c = s.get_char(i);
        proof {
            reveal(Seq::filter);
            let longer = s@.subrange(0, i + 1);
            assert(longer.drop_last() =~= s@.subrange(0, i as int));
            assert(longer.last() == c);
            assert(s@.subrange(i as int, i + 1) =~= seq![c]);
            assert(r@ + seq![c] =~= r@.push(c));
        }
        if c != ' ' {
            r.append(s.substring_char(i, i + 1));
        }
        i += 1;
    }
    assert(s@.subrange(0, n as int) =~= s@);
    r
}

/// Whether a payload counts as empty: it is empty, or nothing is left of it
/// once the surrounding blanks are removed.
pub open spec fn blank(s: Seq<char>) -> bool {
    s.len() == 0 || trimmed(s).len() == 0
}

/// What a string payload stands for, given whether it is blank and what was
/// read from it otherwise: a blank payload is empty, one that could not be
/// read is malformed.
pub open spec fn settled<T>(blank: bool, parsed: Option<T>) -> Result<T, Violation> {
    if blank {
        Err(Violation::EmptyParameter)
    } else {
        match parsed {
            Some(p) => Ok(p),
            None => Err(Violation::AttributeFormat),
        }
    }
}

/// Decides what a string payload stands for, given whether it is blank and
/// what was read from it otherwise.
pub fn settle<T>(blank: bool, parsed: Option<T>) -> (r: Result<T, Violation>)
    ensures
        r == settled(blank, parsed),
{
    if blank {
        Err(Violation::EmptyParameter)
    } else {
        match parsed {
            Some(p) => Ok(p),
            None => Err(Violation::AttributeFormat),
        }
    }
}

/// The path that a text stands for, written without spaces, where the text
/// is handed to the parser and read as a path.
pub open spec fn compact_path(s: Seq<char>) -> Option<Seq<char>> {
    if !parseable(s) {
        None
    } else {
        match path_of(s) {
            Some(p) => Some(without_spaces(p)),
            None => None,
        }
    }
}

/// The clauses that a text stands for, where the text is handed to the
/// parser and read as clauses separated by commas.
pub open spec fn clauses(s: Seq<char>) -> Option<Seq<Seq<char>>> {
    if !parseable(s) {
        None
    } else {
        where_predicates_of(s)
    }
}

/// The path that a string payload stands for: the payload without its
/// surrounding blanks, read as a path and written without spaces. An empty
/// payload is refused as empty, one that is not read as malformed.
pub open spec fn path_payload(s: Seq<char>) -> Result<Seq<char>, Violation> {
    settled(blank(s), compact_path(trimmed(s)))
}

/// The constraint clauses that a string payload stands for: the payload
/// without its surrounding blanks, read as clauses separated by commas.
pub open spec fn bound_payload(s: Seq<char>) -> Result<Seq<Seq<char>>, Violation> {
    settled(blank(s), clauses(trimmed(s)))
}

/// Reads a path from a string payload.
pub fn read_path(s: &String) -> (r: Result<String, Violation>)
    ensures
        match r {
            Ok(p) => path_payload(s@) == Ok::<Seq<char>, Violation>(p@),
            Err(e) => path_payload(s@) == Err::<Seq<char>, Violation>(e),
        },
        s@.len() == 0 ==> r == Err::<String, Violation>(Violation::EmptyParameter),
{
    let t = trim(s);
    let empty = t.as_str().unicode_len() == 0;
    let parsed = if empty || !is_parseable(t.as_str()) {
        None
    } else {
        match parse_path(&t) {
            Some(p) => Some(remove_spaces(p.as_str())),
            None => None,
        }
    };
    settle(empty, parsed)
}

/// Reads constraint clauses from a string payload.
pub fn read_where_predicates(s: &String) -> (r: Result<Vec<String>, Violation>)
    ensures
        match r {
            Ok(p) => bound_payload(s@) == Ok::<Seq<Seq<char>>, Violation>(texts(p@)),
            Err(e) => bound_payload(s@) == Err::<Seq<Seq<char>>, Violation>(e),
        },
        s@.len() == 0 ==> r is Err && r->Err_0 == Violation::EmptyParameter,
{
    let t = trim(s);
    let empty = t.as_str().unicode_len() == 0;
    let parsed = if empty || !is_parseable(t.as_str()) {
        None
    } else {
        parse_where_predicates(&t)
    };
    settle(empty, parsed)
}

} // verus!
