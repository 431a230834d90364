//! Matching request paths against route prefixes with `*` segments.
use vstd::prelude::*;
use vstd::string::StringSliceAdditionalSpecFns;

verus! {

/// The byte of `*`, which stands for one path segment.
pub const STAR: u8 = 42;

/// The byte of `/`, which separates path segments.
pub const SLASH: u8 = 47;

/// Whether the path bytes `r` match the prefix bytes `p`. Bytes that are
/// equal are taken one for one; otherwise a `*` in the prefix takes path
/// bytes up to the next `/` and then gives way to the rest of the prefix. Once
/// the whole prefix is used, the path must end or go on with a `/`.
pub open spec fn matches_from(p: Seq<u8>, r: Seq<u8>) -> bool
    decreases p.len() + r.len(),
{
    if p.len() == 0 {
        r.len() == 0 || r[0] == SLASH
    } else if r.len() == 0 {
        false
    } else if p[0] == r[0] {
        matches_from(p.drop_first(), r.drop_first())
    } else if p[0] == STAR {
        if r[0] != SLASH {
            matches_from(p, r.drop_first())
        } else {
            matches_from(p.drop_first(), r)
        }
    } else {
        false
    }
}

/// Whether `request_path` lies under the route `prefix`, where a `*` in the
/// prefix stands for one path segment.
pub fn prefix_matches(prefix: &str, request_path: &str) -> (res: bool)
    ensures
        res == matches_from(prefix.spec_bytes(), request_path.spec_bytes()),
{
    let p = prefix.as_bytes();
    let r = request_path.as_bytes();
    let ghost ps = p@;
    let ghost rs = r@;
    let mut i: usize = 0;
    let mut j: usize = 0;
    assert(ps.skip(0) =~= ps);
    assert(rs.skip(0) =~= rs);
    while i < p.len()
        invariant
            ps == p@,
            rs == r@,
            ps == prefix.spec_bytes(),
            rs == request_path.spec_bytes(),
            i <= ps.len(),
            j <= rs.len(),
            matches_from(ps.skip(i as int), rs.skip(j as int)) == matches_from(ps, rs),
        decreases (ps.len() - i) + (rs.len() - j),
    {
        let ghost pi = ps.skip(i as int);
        let ghost rj = rs.skip(j as int);
        if j >= r.len() {
            assert(rj.len() == 0);
            assert(!matches_from(pi, rj));
            return false;
        }
        assert(pi[0] == p[i as int] && rj[0] == r[j as int]);
        assert(pi.drop_first() =~= ps.skip(i + 1));
        assert(rj.drop_first() =~= rs.skip(j + 1));
        if p[i] == r[j] {
            i += 1;
            j += 1;
        } else if p[i] == STAR {
            if r[j] != SLASH {
                j += 1;
            } else {
                i += 1;
            }
        } else {
            assert(!matches_from(pi, rj));
            return false;
        }
    }
    let ghost rj = rs.skip(j as int);
    assert(ps.skip(i as int).len() == 0);
    j >= r.len() || r[j] == SLASH
}

} // verus!
