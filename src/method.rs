//! Method signature lines: `name(arg, ...): ReturnType;`.
use vstd::prelude::*;
use crate::text::{
    find_char, first_index, is_first, is_ws, join, lemma_first_index, lemma_join_lacks,
    lemma_lead_ws, lemma_no_index, lemma_split_join, lemma_trail_ws, split_on, split_str,
    strings_view, trim, trim_start, trim_str,
};

verus! {

/// Possible parser errors.
#[derive(Debug, Clone, PartialEq, Eq)]
pub enum ParseError {
    /// A service definition is encountered, but there is no opening bracket.
    NoStartingBracket,
    /// The return type cannot be determined; carries the whole line.
    NoReturnType(String),
    /// The method definition has invalid arguments; carries the text before `:`.
    InvalidMethodArgs(String),
}

/// The value a [`ParseError`] stands for.
pub enum ErrorModel {
    NoStartingBracket,
    NoReturnType(Seq<char>),
    InvalidMethodArgs(Seq<char>),
}

impl View for ParseError {
    type V = ErrorModel;

    open spec fn view(&self) -> ErrorModel {
        match self {
            ParseError::NoStartingBracket => ErrorModel::NoStartingBracket,
            ParseError::NoReturnType(s) => ErrorModel::NoReturnType(s@),
            ParseError::InvalidMethodArgs(s) => ErrorModel::InvalidMethodArgs(s@),
        }
    }
}

/// An rpc method.
#[derive(Debug, Clone, PartialEq, Eq)]
pub struct RpcMethod {
    /// Method's name.
    pub name: String,
    /// List of arguments, each as it stands between the commas.
    pub arguments: Vec<String>,
    /// Return type.
    pub return_type: String,
}

/// The value an [`RpcMethod`] stands for.
pub struct MethodModel {
    pub name: Seq<char>,
    pub arguments: Seq<Seq<char>>,
    pub return_type: Seq<char>,
}

impl View for RpcMethod {
    type V = MethodModel;

    open spec fn view(&self) -> MethodModel {
        MethodModel {
            name: self.name@,
            arguments: strings_view(self.arguments@),
            return_type: self.return_type@,
        }
    }
}

/// The value a parse result stands for.
pub open spec fn method_result_view(r: Result<RpcMethod, ParseError>) -> Result<
    MethodModel,
    ErrorModel,
> {
    match r {
        Ok(m) => Ok(m@),
        Err(e) => Err(e@),
    }
}

/// `s` with one trailing `c` removed, if it ends in one.
pub open spec fn strip_last(s: Seq<char>, c: char) -> Seq<char> {
    if s.len() > 0 && s.last() == c {
        s.drop_last()
    } else {
        s
    }
}

/// What parsing `line` as a method signature gives.
///
/// The line splits at its first `:` into the signature and the return type
/// (trimmed, one trailing `;` dropped); the signature splits at its first `(`
/// into the name (trimmed) and the argument list, which once trimmed must end
/// in `)`. What stands before that `)` is split at each `,`, with no further
/// trimming: an empty list gives one empty argument.
pub open spec fn parse_method(line: Seq<char>) -> Result<MethodModel, ErrorModel> {
    match first_index(line, ':') {
        None => Err(ErrorModel::NoReturnType(line)),
        Some(i) => {
            let method_args = line.subrange(0, i);
            let return_type = strip_last(trim(line.subrange(i + 1, line.len() as int)), ';');
            match first_index(method_args, '(') {
                None => Err(ErrorModel::InvalidMethodArgs(method_args)),
                Some(j) => {
                    let name = trim(method_args.subrange(0, j));
                    let args = trim(method_args.subrange(j + 1, i));
                    if args.len() > 0 && args.last() == ')' {
                        Ok(
                            MethodModel {
                                name,
                                arguments: split_on(args.drop_last(), ','),
                                return_type,
                            },
                        )
                    } else {
                        Err(ErrorModel::InvalidMethodArgs(method_args))
                    }
                },
            }
        },
    }
}

/// `s` without one trailing `c`, as `str::strip_suffix` leaves it, or `s` itself.
fn strip_last_char(s: &str, c: char) -> (r: &str)
    ensures
        r@ == strip_last(s@, c),
{
    let n = s.unicode_len();
    if n > 0 && s.get_char(n - 1) == c {
        s.substring_char(0, n - 1)
    } else {
        s
    }
}

impl RpcMethod {
    /// Parses one method signature line.
    pub fn parse(line: &str) -> (r: Result<RpcMethod, ParseError>)
        ensures
            method_result_view(r) == parse_method(line@),
    {
        let n = line.unicode_len();
        let i = match find_char(line, ':') {
            Some(i) => i,
            None => return Err(ParseError::NoReturnType(line.to_owned())),
        };
        let method_args = line.substring_char(0, i);
        let return_type = strip_last_char(trim_str(line.substring_char(i + 1, n)), ';');
        let j = match find_char(method_args, '(') {
            Some(j) => j,
            None => return Err(ParseError::InvalidMethodArgs(method_args.to_owned())),
        };
        let name = trim_str(method_args.substring_char(0, j));
        let args = trim_str(method_args.substring_char(j + 1, i));
        let m = args.unicode_len();
        if m > 0 && args.get_char(m - 1) == ')' {
            let inner = args.substring_char(0, m - 1);
            proof {
                assert(inner@ =~= args@.drop_last());
            }
            let arguments = split_str(inner, ',');
            Ok(RpcMethod { name: name.to_owned(), arguments, return_type: return_type.to_owned() })
        } else {
            Err(ParseError::InvalidMethodArgs(method_args.to_owned()))
        }
    }
}

/// A line without `:` fails with `NoReturnType`, carrying the line itself.
pub proof fn lemma_parse_no_colon(line: Seq<char>)
    requires
        forall|j: int| 0 <= j < line.len() ==> line[j] != ':',
    ensures
        parse_method(line) == Err::<MethodModel, ErrorModel>(ErrorModel::NoReturnType(line)),
{
    lemma_no_index(line, ':');
}

/// A line whose first `:` at `i` has no `(` before it fails with
/// `InvalidMethodArgs`, carrying the text before that `:`.
pub proof fn lemma_parse_no_paren(line: Seq<char>, i: int)
    requires
        is_first(line, ':', i),
        forall|j: int| 0 <= j < i ==> line[j] != '(',
    ensures
        parse_method(line) == Err::<MethodModel, ErrorModel>(
            ErrorModel::InvalidMethodArgs(line.subrange(0, i)),
        ),
{
    lemma_first_index(line, ':', i);
    lemma_no_index(line.subrange(0, i), '(');
}

/// A line whose argument segment, between the first `(` at `j` and the first
/// `:` at `i`, does not end in `)` once trimmed fails with `InvalidMethodArgs`,
/// carrying the text before that `:`.
pub proof fn lemma_parse_unclosed_args(line: Seq<char>, i: int, j: int)
    requires
        is_first(line, ':', i),
        is_first(line.subrange(0, i), '(', j),
        !(trim(line.subrange(j + 1, i)).len() > 0 && trim(line.subrange(j + 1, i)).last() == ')'),
    ensures
        parse_method(line) == Err::<MethodModel, ErrorModel>(
            ErrorModel::InvalidMethodArgs(line.subrange(0, i)),
        ),
{
    lemma_first_index(line, ':', i);
    lemma_first_index(line.subrange(0, i), '(', j);
    assert(line.subrange(0, i).subrange(j + 1, i) =~= line.subrange(j + 1, i));
}

/// Parsing depends on the line alone: any two results that the parser may
/// give for one line stand for the same method or the same error.
pub proof fn lemma_parse_deterministic(
    line: Seq<char>,
    r1: Result<RpcMethod, ParseError>,
    r2: Result<RpcMethod, ParseError>,
)
    requires
        method_result_view(r1) == parse_method(line),
        method_result_view(r2) == parse_method(line),
    ensures
        method_result_view(r1) == method_result_view(r2),
{
}

/// The line `name(args): ret;`, the arguments joined with `,`.
pub open spec fn signature_line(name: Seq<char>, args: Seq<Seq<char>>, ret: Seq<char>) -> Seq<
    char,
> {
    name + seq!['('] + join(args, ',') + seq![')', ':', ' '] + ret + seq![';']
}

/// A trimmed text that is not empty starts with a character that is no whitespace.
proof fn lemma_trimmed_start(s: Seq<char>)
    requires
        trim(s) == s,
        s.len() > 0,
    ensures
        !is_ws(s[0]),
{
    if is_ws(s[0]) {
        let t = trim_start(s);
        assert(crate::text::lead_ws(s) == 1 + crate::text::lead_ws(s.drop_first()));
        crate::text::lemma_ws_bounds(s);
        crate::text::lemma_ws_bounds(t);
        assert(trim(s).len() <= t.len() < s.len());
    }
}

/// A well-formed signature line parses into its name, its arguments exactly as
/// written between the commas, and its return type.
///
/// Well-formed: the name is trimmed and holds neither `:` nor `(`; there is at
/// least one argument, none holds `,` or `:`, and the argument list does not
/// start with whitespace; the return type is trimmed.
pub proof fn lemma_parse_well_formed(name: Seq<char>, args: Seq<Seq<char>>, ret: Seq<char>)
    requires
        trim(name) == name,
        forall|k: int| 0 <= k < name.len() ==> name[k] != ':' && name[k] != '(',
        args.len() >= 1,
        forall|k: int, m: int|
            0 <= k < args.len() && 0 <= m < args[k].len() ==> args[k][m] != ',' && args[k][m]
                != ':',
        join(args, ',').len() == 0 || !is_ws(join(args, ',')[0]),
        trim(ret) == ret,
    ensures
        parse_method(signature_line(name, args, ret)) == Ok::<MethodModel, ErrorModel>(
            MethodModel { name, arguments: args, return_type: ret },
        ),
{
    let line = signature_line(name, args, ret);
    let js = join(args, ',');
    let a = name.len() as int;
    let i = a + 1 + js.len() + 1;
    assert forall|k: int, m: int| 0 <= k < args.len() && 0 <= m < args[k].len() implies args[k][m] != ':' by {}
    lemma_join_lacks(args, ',', ':');
    assert forall|k: int| 0 <= k < i implies line[k] != ':' by {
        if k < a {
            assert(line[k] == name[k]);
        } else if a < k < i - 1 {
            assert(line[k] == js[k - a - 1]);
        }
    }
    assert(line[i] == ':');
    lemma_first_index(line, ':', i);
    let method_args = line.subrange(0, i);
    assert forall|k: int| 0 <= k < a implies method_args[k] != '(' by {
        assert(method_args[k] == name[k]);
    }
    assert(method_args[a] == '(');
    lemma_first_index(method_args, '(', a);
    assert(method_args.subrange(0, a) =~= name);
    // the argument segment is already trimmed
    let seg = method_args.subrange(a + 1, i);
    assert(seg =~= js + seq![')']);
    if js.len() > 0 {
        assert(seg[0] == js[0]);
    }
    lemma_lead_ws(seg, 0);
    lemma_trail_ws(trim_start(seg), 0);
    assert(trim(seg) =~= seg);
    assert(seg.drop_last() =~= js);
    lemma_split_join(args, ',');
    // the return segment loses its leading space and one `;`
    let rs = line.subrange(i + 1, line.len() as int);
    assert(rs =~= seq![' '] + ret + seq![';']);
    if ret.len() > 0 {
        lemma_trimmed_start(ret);
        assert(rs[1] == ret[0]);
    }
    lemma_lead_ws(rs, 1);
    lemma_trail_ws(trim_start(rs), 0);
    assert(trim(rs) =~= ret + seq![';']);
    assert(strip_last(trim(rs), ';') =~= ret);
}

} // verus!
