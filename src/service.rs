//! Scanning a sequence of lines for `rpc_service` blocks.
use vstd::prelude::*;
use crate::method::{ErrorModel, MethodModel, ParseError, RpcMethod, parse_method};
use crate::text::{find_char, first_index, trim, trim_str};

verus! {

/// An `rpc_service` definition.
#[derive(Debug, Clone, PartialEq, Eq)]
pub struct RpcService {
    /// Service name.
    pub name: String,
    /// List of service methods, in source order.
    pub methods: Vec<RpcMethod>,
}

/// The value an [`RpcService`] stands for.
pub struct ServiceModel {
    pub name: Seq<char>,
    pub methods: Seq<MethodModel>,
}

/// The values a sequence of methods stands for.
pub open spec fn methods_view(v: Seq<RpcMethod>) -> Seq<MethodModel> {
    v.map_values(|m: RpcMethod| m@)
}

impl View for RpcService {
    type V = ServiceModel;

    open spec fn view(&self) -> ServiceModel {
        ServiceModel { name: self.name@, methods: methods_view(self.methods@) }
    }
}

/// The value one item of the scan stands for.
pub open spec fn item_view(r: Option<Result<RpcService, ParseError>>) -> Option<
    Result<ServiceModel, ErrorModel>,
> {
    match r {
        Some(Ok(s)) => Some(Ok(s@)),
        Some(Err(e)) => Some(Err(e@)),
        None => None,
    }
}

/// The keyword that opens a service block.
pub open spec fn service_keyword() -> Seq<char> {
    "rpc_service"@
}

/// A trimmed line that starts a service block.
pub open spec fn is_header(t: Seq<char>) -> bool {
    t.len() >= service_keyword().len() && t.subrange(0, service_keyword().len() as int)
        == service_keyword()
}

/// A trimmed line that closes a service block.
pub open spec fn is_close(t: Seq<char>) -> bool {
    t == seq!['}']
}

/// Index of the first header line at or after `pos`, or the number of lines.
pub open spec fn next_header(lines: Seq<Seq<char>>, pos: int) -> int
    decreases lines.len() - pos,
{
    if pos >= lines.len() {
        lines.len() as int
    } else if is_header(trim(lines[pos])) {
        pos
    } else {
        next_header(lines, pos + 1)
    }
}

/// The rest of a block from line `pos` on, named `name`, with `methods` parsed so
/// far: what it yields and the position after the last line it consumed.
///
/// The block ends at a `}` line or where the lines run out; the first method
/// line that does not parse ends it with that error.
pub open spec fn scan_block(
    lines: Seq<Seq<char>>,
    pos: int,
    name: Seq<char>,
    methods: Seq<MethodModel>,
) -> (Result<ServiceModel, ErrorModel>, int)
    decreases lines.len() - pos,
{
    if pos >= lines.len() {
        (Ok(ServiceModel { name, methods }), lines.len() as int)
    } else if is_close(trim(lines[pos])) {
        (Ok(ServiceModel { name, methods }), pos + 1)
    } else {
        match parse_method(trim(lines[pos])) {
            Ok(m) => scan_block(lines, pos + 1, name, methods.push(m)),
            Err(e) => (Err(e), pos + 1),
        }
    }
}

/// One step of the scan from line `pos`: the next service or error, or `None`
/// once no header is left, and the position after the last line consumed.
pub open spec fn scan_next(lines: Seq<Seq<char>>, pos: int) -> (
    Option<Result<ServiceModel, ErrorModel>>,
    int,
) {
    let k = next_header(lines, pos);
    if k >= lines.len() {
        (None, lines.len() as int)
    } else {
        let t = trim(lines[k]);
        let rest = t.subrange(service_keyword().len() as int, t.len() as int);
        match first_index(rest, '{') {
            None => (Some(Err(ErrorModel::NoStartingBracket)), k + 1),
            Some(b) => {
                let (r, p) = scan_block(lines, k + 1, trim(rest.subrange(0, b)), seq![]);
                (Some(r), p)
            },
        }
    }
}

/// The lines a scanner reads and how many of them it has consumed.
pub struct ScannerModel {
    pub lines: Seq<Seq<char>>,
    pub pos: int,
}

/// The `rpc_service` parser: a single-pass scan over a sequence of lines.
pub struct ParserIter {
    lines: Vec<String>,
    pos: usize,
}

impl View for ParserIter {
    type V = ScannerModel;

    closed spec fn view(&self) -> ScannerModel {
        ScannerModel { lines: crate::text::strings_view(self.lines@), pos: self.pos as int }
    }
}

/// Whether `t` starts with the service keyword.
fn starts_with_keyword(t: &str) -> (r: bool)
    ensures
        r == is_header(t@),
{
    let kw = "rpc_service";
    let k = kw.unicode_len();
    let n = t.unicode_len();
    if n < k {
        return false;
    }
    let mut i: usize = 0;
    assert(kw@ == service_keyword());
    while i < k
        invariant
            kw@ == service_keyword(),
            k == kw@.len() == service_keyword().len(),
            k <= n == t@.len(),
            i <= k,
            forall|j: int| 0 <= j < i ==> t@[j] == kw@[j],
        decreases k - i,
    {
        if t.get_char(i) != kw.get_char(i) {
            proof {
                assert(t@.subrange(0, k as int)[i as int] != service_keyword()[i as int]);
            }
            return false;
        }
        i = i + 1;
    }
    proof {
        assert(t@.subrange(0, k as int) =~= service_keyword());
    }
    true
}

/// Whether `t` is exactly `}`.
fn is_close_line(t: &str) -> (r: bool)
    ensures
        r == is_close(t@),
{
    let n = t.unicode_len();
    if n == 1 && t.get_char(0) == '}' {
        proof {
            assert(t@ =~= seq!['}']);
        }
        true
    } else {
        proof {
            if n == 1 {
                assert(seq!['}'][0] == '}');
            }
        }
        false
    }
}

impl ParserIter {
    /// Creates a new parser over the given lines.
    pub fn new(lines: Vec<String>) -> (r: ParserIter)
        ensures
            r@.lines == crate::text::strings_view(lines@),
            r@.pos == 0,
    {
        ParserIter { lines, pos: 0 }
    }

    /// Creates a new parser over the lines of `text`, split at each `\n`.
    pub fn from_text(text: &str) -> (r: ParserIter)
        ensures
            r@.lines == crate::text::split_on(text@, '\n'),
            r@.pos == 0,
    {
        ParserIter::new(crate::text::split_str(text, '\n'))
    }

    /// One step of the scan over `src` from line `start`: the item and the
    /// position after the last line consumed.
    fn scan_from(src: &Vec<String>, start: usize) -> (r: (
        Option<Result<RpcService, ParseError>>,
        usize,
    ))
        requires
            start <= src@.len(),
        ensures
            (item_view(r.0), r.1 as int) == scan_next(
                crate::text::strings_view(src@),
                start as int,
            ),
            start <= r.1 <= src@.len(),
            r.0 is Some ==> start < r.1,
    {
        let ghost lines = crate::text::strings_view(src@);
        let n = src.len();
        let mut p = start;
        while p < n
            invariant
                lines.len() == n,
                n == src@.len(),
                lines == crate::text::strings_view(src@),
                start <= p <= n,
                next_header(lines, start as int) == next_header(lines, p as int),
            decreases n - p,
        {
            let line = trim_str(src[p].as_str());
            assert(line@ == trim(lines[p as int]));
            let k = p;
            p = p + 1;
            if starts_with_keyword(line) {
                assert(next_header(lines, k as int) == k);
                let kl = "rpc_service".unicode_len();
                let rest = line.substring_char(kl, line.unicode_len());
                let b = match find_char(rest, '{') {
                    Some(b) => b,
                    None => {
                        return (Some(Err(ParseError::NoStartingBracket)), p);
                    },
                };
                let name = trim_str(rest.substring_char(0, b)).to_owned();
                let mut methods: Vec<RpcMethod> = Vec::new();
                assert(methods_view(methods@) =~= seq![]);
                while p < n
                    invariant
                        lines.len() == n,
                        n == src@.len(),
                        lines == crate::text::strings_view(src@),
                        start <= k < p <= n,
                        scan_next(lines, start as int) == ({
                            let (r, q) = scan_block(lines, k + 1, name@, seq![]);
                            (Some(r), q)
                        }),
                        scan_block(lines, k + 1, name@, seq![]) == scan_block(
                            lines,
                            p as int,
                            name@,
                            methods_view(methods@),
                        ),
                    decreases n - p,
                {
                    let t = trim_str(src[p].as_str());
                    assert(t@ == trim(lines[p as int]));
                    p = p + 1;
                    if is_close_line(t) {
                        return (Some(Ok(RpcService { name, methods })), p);
                    }
                    match RpcMethod::parse(t) {
                        Ok(m) => {
                            let ghost before = methods@;
                            methods.push(m);
                            assert(methods_view(methods@) =~= methods_view(before).push(m@));
                        },
                        Err(e) => {
                            return (Some(Err(e)), p);
                        },
                    }
                }
                return (Some(Ok(RpcService { name, methods })), p);
            }
        }
        (None, p)
    }

    /// How many lines have been consumed so far.
    pub fn lines_consumed(&self) -> (r: usize)
        ensures
            r == self@.pos,
    {
        self.pos
    }

    /// How many lines were supplied.
    pub fn lines_supplied(&self) -> (r: usize)
        ensures
            r == self@.lines.len(),
    {
        self.lines.len()
    }

    /// Scans on for the next `rpc_service` block: `None` once no header line is
    /// left, else the parsed service or the first error found in the block.
    ///
    /// Each line is consumed at most once, in order; the lines themselves never
    /// change.
    pub fn next(&mut self) -> (r: Option<Result<RpcService, ParseError>>)
        requires
            old(self)@.pos <= old(self)@.lines.len(),
        ensures
            final(self)@.lines == old(self)@.lines,
            (item_view(r), final(self)@.pos) == scan_next(old(self)@.lines, old(self)@.pos),
            old(self)@.pos <= final(self)@.pos <= final(self)@.lines.len(),
            r is Some ==> old(self)@.pos < final(self)@.pos,
    {
        let (r, p) = ParserIter::scan_from(&self.lines, self.pos);
        self.pos = p;
        r
    }
}

/// The next header is at or after `pos`, and within the lines.
proof fn lemma_next_header_bounds(lines: Seq<Seq<char>>, pos: int)
    requires
        0 <= pos <= lines.len(),
    ensures
        pos <= next_header(lines, pos) <= lines.len(),
    decreases lines.len() - pos,
{
    if pos < lines.len() && !is_header(trim(lines[pos])) {
        lemma_next_header_bounds(lines, pos + 1);
    }
}

/// The next header is the first line from `pos` on whose trimmed text is a header.
proof fn lemma_next_header_at(lines: Seq<Seq<char>>, pos: int, k: int)
    requires
        0 <= pos <= k < lines.len(),
        forall|j: int| pos <= j < k ==> !is_header(trim(lines[j])),
        is_header(trim(lines[k])),
    ensures
        next_header(lines, pos) == k,
    decreases k - pos,
{
    if pos < k {
        lemma_next_header_at(lines, pos + 1, k);
    }
}

/// The rest of a block consumes at least one line, unless none is left, and
/// never goes past the last line.
proof fn lemma_scan_block_bounds(
    lines: Seq<Seq<char>>,
    pos: int,
    name: Seq<char>,
    methods: Seq<MethodModel>,
)
    requires
        0 <= pos <= lines.len(),
    ensures
        pos <= scan_block(lines, pos, name, methods).1 <= lines.len(),
    decreases lines.len() - pos,
{
    if pos < lines.len() && !is_close(trim(lines[pos])) {
        match parse_method(trim(lines[pos])) {
            Ok(m) => lemma_scan_block_bounds(lines, pos + 1, name, methods.push(m)),
            Err(_) => {},
        }
    }
}

/// Each step of the scan consumes lines only forward and never more than are
/// supplied; a step that yields an item consumes at least one line.
pub proof fn lemma_scan_consumes_bounded(lines: Seq<Seq<char>>, pos: int)
    requires
        0 <= pos <= lines.len(),
    ensures
        pos <= scan_next(lines, pos).1 <= lines.len(),
        scan_next(lines, pos).0 is Some ==> pos < scan_next(lines, pos).1,
{
    lemma_next_header_bounds(lines, pos);
    let k = next_header(lines, pos);
    if k < lines.len() {
        let t = trim(lines[k]);
        let rest = t.subrange(service_keyword().len() as int, t.len() as int);
        match first_index(rest, '{') {
            None => {},
            Some(b) => lemma_scan_block_bounds(lines, k + 1, trim(rest.subrange(0, b)), seq![]),
        }
    }
}

/// The block from `pos` on, whose lines before `m` are methods that parse and
/// whose line `m` is a method that does not, ends in the error of line `m`,
/// right after it.
proof fn lemma_scan_block_error(
    lines: Seq<Seq<char>>,
    pos: int,
    name: Seq<char>,
    methods: Seq<MethodModel>,
    m: int,
)
    requires
        0 <= pos <= m < lines.len(),
        forall|j: int|
            pos <= j < m ==> !is_close(trim(lines[j])) && parse_method(trim(lines[j])) is Ok,
        !is_close(trim(lines[m])),
        parse_method(trim(lines[m])) is Err,
    ensures
        scan_block(lines, pos, name, methods) == (
            Err::<ServiceModel, ErrorModel>(parse_method(trim(lines[m]))->Err_0),
            m + 1,
        ),
    decreases m - pos,
{
    if pos < m {
        let mm = parse_method(trim(lines[pos]))->Ok_0;
        lemma_scan_block_error(lines, pos + 1, name, methods.push(mm), m);
    }
}

/// A block with a valid header whose method lines parse up to line `m`, which
/// does not, yields exactly one item: the error of line `m`. The block's name and
/// the methods parsed before are dropped, and the scan goes on after line `m`.
pub proof fn lemma_scan_malformed_method(lines: Seq<Seq<char>>, pos: int, k: int, m: int)
    requires
        0 <= pos <= k < m < lines.len(),
        forall|j: int| pos <= j < k ==> !is_header(trim(lines[j])),
        is_header(trim(lines[k])),
        first_index(
            trim(lines[k]).subrange(service_keyword().len() as int, trim(lines[k]).len() as int),
            '{',
        ) is Some,
        forall|j: int|
            k < j < m ==> !is_close(trim(lines[j])) && parse_method(trim(lines[j])) is Ok,
        !is_close(trim(lines[m])),
        parse_method(trim(lines[m])) is Err,
    ensures
        scan_next(lines, pos) == (
            Some(Err::<ServiceModel, ErrorModel>(parse_method(trim(lines[m]))->Err_0)),
            m + 1,
        ),
{
    lemma_next_header_at(lines, pos, k);
    let t = trim(lines[k]);
    let rest = t.subrange(service_keyword().len() as int, t.len() as int);
    let b = first_index(rest, '{')->Some_0;
    lemma_scan_block_error(lines, k + 1, trim(rest.subrange(0, b)), seq![], m);
}

} // verus!
