//! Name resolution: turning a discovery target into broker addresses.

use vstd::prelude::*;

verus! {

/// Why no broker addresses could be had.
#[derive(Debug, Clone, Copy, PartialEq, Eq, Structural)]
pub enum ResolveError {
    /// The discovery endpoint could not be reached.
    Unreachable,
    /// The discovery endpoint answered with something that is no address list.
    Malformed,
}

/// Characters that separate addresses in a discovery answer.
pub open spec fn is_separator(c: char) -> bool {
    c == ';' || c == ' ' || c == '\n' || c == '\r' || c == '\t'
}

/// Scans `s` from the left: the addresses already ended, and the one that
/// is still being read.
pub open spec fn scan_addresses(s: Seq<char>) -> (Seq<Seq<char>>, Seq<char>)
    decreases s.len(),
{
    if s.len() == 0 {
        (Seq::empty(), Seq::empty())
    } else {
        let (done, cur) = scan_addresses(s.drop_last());
        if is_separator(s.last()) {
            if cur.len() > 0 {
                (done.push(cur), Seq::empty())
            } else {
                (done, Seq::empty())
            }
        } else {
            (done, cur.push(s.last()))
        }
    }
}

/// The addresses in a discovery answer: the maximal runs of characters that
/// are not separators, in order.
pub open spec fn addresses_in(s: Seq<char>) -> Seq<Seq<char>> {
    let (done, cur) = scan_addresses(s);
    if cur.len() > 0 {
        done.push(cur)
    } else {
        done
    }
}

/// The views of a list of strings.
pub open spec fn views(v: Seq<String>) -> Seq<Seq<char>> {
    v.map_values(|s: String| s@)
}

/// Reads the address list out of a discovery answer; an answer that holds no
/// address is `Malformed`.
pub fn parse_address_list(body: &str) -> (r: Result<Vec<String>, ResolveError>)
    ensures
        addresses_in(body@).len() == 0 ==> r == Err::<Vec<String>, ResolveError>(
            ResolveError::Malformed,
        ),
        addresses_in(body@).len() > 0 ==> r is Ok && views(r->Ok_0@) == addresses_in(body@),
{
    let n = body.unicode_len();
    let mut out: Vec<String> = Vec::new();
    let mut start: usize = 0;
    let mut i: usize = 0;
    while i < n
        invariant
            n == body@.len(),
            start <= i <= n,
            views(out@) == scan_addresses(body@.subrange(0, i as int)).0,
            body@.subrange(start as int, i as int) == scan_addresses(
                body@.subrange(0, i as int),
            ).1,
        decreases n - i,
    {
        let c = body.get_char(i);
        proof {
            assert(body@.subrange(0, i + 1).drop_last() =~= body@.subrange(0, i as int));
        }
        if c == ';' || c == ' ' || c == '\n' || c == '\r' || c == '\t' {
            if start < i {
                let piece = String::from_str(body.substring_char(start, i));
                let ghost prev = out@;
                out.push(piece);
                proof {
                    assert(views(out@) =~= views(prev).push(piece@));
                }
            }
            start = i + 1;
            proof {
                assert(body@.subrange(start as int, i + 1) =~= Seq::<char>::empty());
            }
        } else {
            proof {
                assert(body@.subrange(start as int, i + 1) =~= body@.subrange(
                    start as int,
                    i as int,
                ).push(c));
            }
        }
        i = i + 1;
    }
    proof {
        assert(body@.subrange(0, n as int) =~= body@);
    }
    if start < n {
        let piece = String::from_str(body.substring_char(start, n));
        let ghost prev = out@;
        out.push(piece);
        proof {
            assert(views(out@) =~= views(prev).push(piece@));
        }
    }
    if out.len() == 0 {
        Err(ResolveError::Malformed)
    } else {
        Ok(out)
    }
}


/// Whether the four characters from `i` are an empty line: CR LF CR LF.
pub open spec fn blank_line_at(s: Seq<char>, i: int) -> bool {
    0 <= i && i + 4 <= s.len() && s[i] == '\r' && s[i + 1] == '\n' && s[i + 2] == '\r' && s[i
        + 3] == '\n'
}

/// Whether `i` is where the first empty line, which ends the head of an
/// HTTP answer, starts.
pub open spec fn is_head_end(s: Seq<char>, i: int) -> bool {
    blank_line_at(s, i) && forall|j: int| 0 <= j < i ==> !#[trigger] blank_line_at(s, j)
}

/// Whether `i` is the first space of `s`.
pub open spec fn is_first_space(s: Seq<char>, i: int) -> bool {
    0 <= i < s.len() && s[i] == ' ' && forall|j: int| 0 <= j < i ==> #[trigger] s[j] != ' '
}

pub open spec fn is_digit(c: char) -> bool {
    '0' <= c && c <= '9'
}

/// What an HTTP answer from a discovery endpoint resolves to. The status
/// code is the three digits after the first space of the head, followed by
/// a space or the line's end. `200` gives the addresses of the body (the
/// text after the first empty line); any other code means the endpoint could
/// not serve the list; an answer without that shape is `Malformed`.
pub open spec fn http_outcome(s: Seq<char>) -> Result<Seq<Seq<char>>, ResolveError> {
    if !exists|e: int| is_head_end(s, e) {
        Err(ResolveError::Malformed)
    } else {
        let e = choose|e: int| is_head_end(s, e);
        if !exists|p: int| is_first_space(s, p) && p + 4 <= e {
            Err(ResolveError::Malformed)
        } else {
            let p = choose|p: int| is_first_space(s, p) && p + 4 <= e;
            if !(is_digit(s[p + 1]) && is_digit(s[p + 2]) && is_digit(s[p + 3]) && (s[p + 4] == ' '
                || s[p + 4] == '\r')) {
                Err(ResolveError::Malformed)
            } else if s[p + 1] == '2' && s[p + 2] == '0' && s[p + 3] == '0' {
                let a = addresses_in(s.subrange(e + 4, s.len() as int));
                if a.len() == 0 {
                    Err(ResolveError::Malformed)
                } else {
                    Ok(a)
                }
            } else {
                Err(ResolveError::Unreachable)
            }
        }
    }
}

/// Resolves by asking a discovery endpoint over HTTP. It keeps no cache:
/// every resolve asks again.
#[derive(Debug, Clone)]
pub struct HttpResolver {
    /// Cluster tag that the endpoint is asked about.
    pub cluster: String,
    /// Discovery domain that is asked.
    pub domain: String,
}

impl HttpResolver {
    /// A resolver for `cluster` against the default domain.
    pub fn new(cluster: String) -> (r: Self)
        ensures
            r.cluster == cluster,
            r.domain@ == "DEFAULT"@,
    {
        HttpResolver { cluster, domain: String::from_str("DEFAULT") }
    }

    /// A resolver for `cluster` against `domain`.
    pub fn with_domain(cluster: String, domain: String) -> (r: Self)
        ensures
            r.cluster == cluster,
            r.domain == domain,
    {
        HttpResolver { cluster, domain }
    }

    /// What a discovery answer says, as `parse_address_list` reads it.
    pub fn resolve_response(&self, body: &str) -> (r: Result<Vec<String>, ResolveError>)
        ensures
            addresses_in(body@).len() == 0 ==> r == Err::<Vec<String>, ResolveError>(
                ResolveError::Malformed,
            ),
            addresses_in(body@).len() > 0 ==> r is Ok && views(r->Ok_0@) == addresses_in(body@),
    {
        parse_address_list(body)
    }

    /// What a whole HTTP answer of the endpoint resolves to, as
    /// `http_outcome` says.
    pub fn resolve_http_answer(&self, answer: &str) -> (r: Result<Vec<String>, ResolveError>)
        ensures
            match (r, http_outcome(answer@)) {
                (Ok(v), Ok(a)) => views(v@) == a,
                (Err(e), Err(x)) => e == x,
                _ => false,
            },
    {
        let n = answer.unicode_len();
        let mut e: usize = 0;
        let mut found = false;
        while !found && n >= 4 && e <= n - 4
            invariant
                n == answer@.len(),
                e <= n,
                forall|j: int| 0 <= j < e ==> !#[trigger] blank_line_at(answer@, j),
                found ==> is_head_end(answer@, e as int),
            decreases n - e + if found { 0int } else { 1int },
        {
            if answer.get_char(e) == '\r' && answer.get_char(e + 1) == '\n' && answer.get_char(e + 2)
                == '\r' && answer.get_char(e + 3) == '\n' {
                found = true;
            } else {
                e = e + 1;
            }
        }
        if !found {
            assert forall|j: int| !blank_line_at(answer@, j) by {
                if blank_line_at(answer@, j) {
                    assert(j < e);
                }
            }
            return Err(ResolveError::Malformed);
        }
        assert(is_head_end(answer@, e as int));
        let ghost es = choose|x: int| is_head_end(answer@, x);
        assert(es == e) by {
            if es < e {
                assert(!blank_line_at(answer@, es));
            }
            if e < es {
                assert(!blank_line_at(answer@, e as int));
            }
        }
        let mut p: usize = 0;
        while p < e && answer.get_char(p) != ' '
            invariant
                n == answer@.len(),
                e + 4 <= n,
                p <= e,
                forall|j: int| 0 <= j < p ==> #[trigger] answer@[j] != ' ',
            decreases e - p,
        {
            p = p + 1;
        }
        if p + 4 > e {
            assert forall|q: int| !(is_first_space(answer@, q) && q + 4 <= e) by {
                if is_first_space(answer@, q) && q + 4 <= e {
                    if q < p {
                        assert(answer@[q] != ' ');
                    } else if p < q {
                        assert(answer@[p as int] != ' ');
                    }
                }
            }
            return Err(ResolveError::Malformed);
        }
        assert(is_first_space(answer@, p as int));
        let ghost ps = choose|q: int| is_first_space(answer@, q) && q + 4 <= e;
        assert(ps == p) by {
            if ps < p {
                assert(answer@[ps] != ' ');
            }
            if p < ps {
                assert(answer@[p as int] != ' ');
            }
        }
        let c1 = answer.get_char(p + 1);
        let c2 = answer.get_char(p + 2);
        let c3 = answer.get_char(p + 3);
        let c4 = answer.get_char(p + 4);
        if !('0' <= c1 && c1 <= '9' && '0' <= c2 && c2 <= '9' && '0' <= c3 && c3 <= '9' && (c4
            == ' ' || c4 == '\r')) {
            return Err(ResolveError::Malformed);
        }
        if c1 == '2' && c2 == '0' && c3 == '0' {
            let body = answer.substring_char(e + 4, n);
            parse_address_list(body)
        } else {
            Err(ResolveError::Unreachable)
        }
    }

    /// `http:` followed by the domain and the cluster tag, for diagnostics.
    pub fn description(&self) -> (r: String)
        ensures
            r@ == "http:"@ + self.domain@ + "/"@ + self.cluster@,
    {
        let mut d = String::from_str("http:");
        d.append(self.domain.as_str());
        d.append("/");
        d.append(self.cluster.as_str());
        d
    }
}

/// Resolves to a fixed list of addresses where it has one, and asks its
/// fallback otherwise.
#[derive(Debug, Clone)]
pub struct PassthroughResolver {
    /// The fixed addresses.
    pub addrs: Vec<String>,
    /// Asked when `addrs` is empty.
    pub fallback: HttpResolver,
}

impl PassthroughResolver {
    pub fn new(addrs: Vec<String>, fallback: HttpResolver) -> (r: Self)
        ensures
            r.addrs == addrs,
            r.fallback == fallback,
    {
        PassthroughResolver { addrs, fallback }
    }

    /// The outcome, given what the fallback answered: the fixed list when it
    /// is not empty, else the fallback's answer, value or error, unchanged.
    pub fn resolve_with(&self, fallback_result: Result<Vec<String>, ResolveError>) -> (r: Result<
        Vec<String>,
        ResolveError,
    >)
        ensures
            outcome(r) == passthrough_outcome(self.addrs@, outcome(fallback_result)),
            self.addrs@.len() == 0 ==> r == fallback_result,
    {
        if self.addrs.len() > 0 {
            Ok(copy_strings(&self.addrs))
        } else {
            fallback_result
        }
    }
}

/// A copy of a list of strings.
fn copy_strings(v: &Vec<String>) -> (r: Vec<String>)
    ensures
        r@ == v@,
{
    let mut out: Vec<String> = Vec::new();
    let mut i: usize = 0;
    while i < v.len()
        invariant
            i <= v@.len(),
            out@ == v@.subrange(0, i as int),
        decreases v@.len() - i,
    {
        out.push(v[i].clone());
        i = i + 1;
    }
    assert(v@.subrange(0, v@.len() as int) =~= v@);
    out
}

/// The resolvers a producer can be configured with.
#[derive(Debug, Clone)]
pub enum NsResolver {
    Http(HttpResolver),
    Passthrough(PassthroughResolver),
}

impl NsResolver {
    /// The endpoint that must be asked before this resolver can answer, or
    /// `None` where its fixed list answers without asking.
    pub fn discovery_target(&self) -> (r: Option<&HttpResolver>)
        ensures
            match self {
                NsResolver::Http(h) => r == Some(h),
                NsResolver::Passthrough(p) => if p.addrs@.len() > 0 {
                    r is None
                } else {
                    r == Some(&p.fallback)
                },
            },
    {
        match self {
            NsResolver::Http(h) => Some(h),
            NsResolver::Passthrough(p) => if p.addrs.len() > 0 {
                None
            } else {
                Some(&p.fallback)
            },
        }
    }

    /// What resolving gives when the discovery target answers `discovered`.
    pub open spec fn resolved(&self, discovered: Result<Seq<String>, ResolveError>) -> Result<
        Seq<String>,
        ResolveError,
    > {
        match self {
            NsResolver::Http(_) => discovered,
            NsResolver::Passthrough(p) => passthrough_outcome(p.addrs@, discovered),
        }
    }

    /// The outcome of resolving, given what the discovery target answered
    /// (ignored where there is none).
    pub fn resolve_with(&self, discovered: Result<Vec<String>, ResolveError>) -> (r: Result<
        Vec<String>,
        ResolveError,
    >)
        ensures
            outcome(r) == self.resolved(outcome(discovered)),
            match self {
                NsResolver::Http(_) => r == discovered,
                NsResolver::Passthrough(p) => if p.addrs@.len() > 0 {
                    r is Ok && r->Ok_0@ == p.addrs@
                } else {
                    r == discovered
                },
            },
    {
        match self {
            NsResolver::Http(_) => discovered,
            NsResolver::Passthrough(p) => p.resolve_with(discovered),
        }
    }

    /// A short text that says where addresses come from.
    pub fn description(&self) -> (r: String)
        ensures
            match self {
                NsResolver::Http(h) => r@ == "http:"@ + h.domain@ + "/"@ + h.cluster@,
                NsResolver::Passthrough(p) => r@ == "passthrough"@,
            },
    {
        match self {
            NsResolver::Http(h) => h.description(),
            NsResolver::Passthrough(_) => String::from_str("passthrough"),
        }
    }
}

/// A resolve outcome, with the list as a sequence.
pub open spec fn outcome(r: Result<Vec<String>, ResolveError>) -> Result<Seq<String>, ResolveError> {
    match r {
        Ok(v) => Ok(v@),
        Err(e) => Err(e),
    }
}

/// What a passthrough resolver with list `fixed` gives when its fallback
/// gives `fallback_result`.
pub open spec fn passthrough_outcome(
    fixed: Seq<String>,
    fallback_result: Result<Seq<String>, ResolveError>,
) -> Result<Seq<String>, ResolveError> {
    if fixed.len() > 0 {
        Ok(fixed)
    } else {
        fallback_result
    }
}

/// A fixed list that is not empty is the outcome whatever the fallback
/// answered; an empty one leaves the outcome to the fallback, value or error.
pub proof fn lemma_passthrough_precedence(
    fixed: Seq<String>,
    first: Result<Seq<String>, ResolveError>,
    second: Result<Seq<String>, ResolveError>,
)
    ensures
        fixed.len() > 0 ==> passthrough_outcome(fixed, first) == passthrough_outcome(fixed, second)
            && passthrough_outcome(fixed, first) == Ok::<Seq<String>, ResolveError>(fixed),
        fixed.len() == 0 ==> passthrough_outcome(fixed, first) == first,
{
}

} // verus!
