//! Constant-style names for the methods of a service.
use vstd::prelude::*;
use crate::service::RpcService;

verus! {

/// An ASCII lower-case letter.
pub open spec fn is_lower(c: char) -> bool {
    'a' <= c && c <= 'z'
}

/// An ASCII upper-case letter.
pub open spec fn is_upper(c: char) -> bool {
    'A' <= c && c <= 'Z'
}

/// An ASCII digit.
pub open spec fn is_digit(c: char) -> bool {
    '0' <= c && c <= '9'
}

/// `c` in upper case if it is an ASCII lower-case letter, else `c` itself.
pub open spec fn upper(c: char) -> char {
    if is_lower(c) {
        ((c as u32) - 32) as char
    } else {
        c
    }
}

/// What character `i` of `s` turns into: an upper-case letter that follows a
/// lower-case letter or a digit starts a new word and gets a `_` before it;
/// any other character is upper-cased.
pub open spec fn name_piece(s: Seq<char>, i: int) -> Seq<char> {
    if i > 0 && is_upper(s[i]) && (is_lower(s[i - 1]) || is_digit(s[i - 1])) {
        seq!['_', s[i]]
    } else {
        seq![upper(s[i])]
    }
}

/// The constant name for a method name: `snake_case` and `camelCase` both
/// become `UPPER_CASE`.
pub open spec fn const_name(s: Seq<char>) -> Seq<char>
    decreases s.len(),
{
    if s.len() == 0 {
        seq![]
    } else {
        const_name(s.drop_last()) + name_piece(s, s.len() - 1)
    }
}

/// Relies on `String::push`: appends one character.
#[verifier::external_body]
fn push_char(s: &mut String, c: char)
    ensures
        final(s)@ == old(s)@.push(c),
{
    s.push(c)
}

/// The constant name for `name`.
pub fn to_const_name(name: &str) -> (r: String)
    ensures
        r@ == const_name(name@),
{
    let n = name.unicode_len();
    let mut out = String::new();
    let mut prev: char = ' ';
    let mut i: usize = 0;
    proof {
        assert(name@.subrange(0, 0) =~= seq![]);
    }
    while i < n
        invariant
            n == name@.len(),
            i <= n,
            i > 0 ==> prev == name@[i - 1],
            out@ == const_name(name@.subrange(0, i as int)),
        decreases n - i,
    {
        let c = name.get_char(i);
        let ghost pre = name@.subrange(0, i + 1);
        proof {
            assert(pre.drop_last() =~= name@.subrange(0, i as int));
        }
        if i > 0 && 'A' <= c && c <= 'Z' && (('a' <= prev && prev <= 'z') || ('0' <= prev && prev
            <= '9')) {
            push_char(&mut out, '_');
            push_char(&mut out, c);
            proof {
                assert(name_piece(pre, i as int) =~= seq!['_', c]);
            }
        } else {
            let u = if 'a' <= c && c <= 'z' {
                ((c as u8) - 32) as char
            } else {
                c
            };
            push_char(&mut out, u);
            proof {
                assert(name_piece(pre, i as int) =~= seq![u]);
            }
        }
        proof {
            assert(out@ =~= const_name(pre));
        }
        prev = c;
        i = i + 1;
    }
    proof {
        assert(name@.subrange(0, n as int) =~= name@);
    }
    out
}

/// Formatter of the method defines of a service: one upper-case constant for
/// each method, whose value is the method's name.
pub struct RpcMethodDefines<'a> {
    /// The service whose methods are rendered.
    pub service: &'a RpcService,
}

impl<'a> RpcMethodDefines<'a> {
    /// The pairs `(constant name, method name)`, one per method, in order.
    pub fn entries(&self) -> (r: Vec<(String, String)>)
        ensures
            r@.len() == self.service.methods@.len(),
            forall|i: int|
                0 <= i < r@.len() ==> r@[i].0@ == const_name(self.service.methods@[i].name@)
                    && r@[i].1@ == self.service.methods@[i].name@,
    {
        let methods = &self.service.methods;
        let mut out: Vec<(String, String)> = Vec::new();
        let mut i: usize = 0;
        while i < methods.len()
            invariant
                methods@ == self.service.methods@,
                i <= methods@.len(),
                out@.len() == i,
                forall|j: int|
                    0 <= j < i ==> out@[j].0@ == const_name(methods@[j].name@) && out@[j].1@
                        == methods@[j].name@,
            decreases methods@.len() - i,
        {
            let name = methods[i].name.as_str();
            out.push((to_const_name(name), name.to_owned()));
            i = i + 1;
        }
        out
    }
}

impl RpcService {
    /// Gets the formatter that renders this service's methods as upper-case
    /// constants holding the method names.
    pub fn as_rpc_method_defines(&self) -> (r: RpcMethodDefines<'_>)
        ensures
            r.service == self,
    {
        RpcMethodDefines { service: self }
    }
}

} // verus!
