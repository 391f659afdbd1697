use vstd::prelude::*;

verus! {

/// The bytes of `"GET"`.
pub open spec fn spec_get() -> Seq<u8> {
    seq![71u8, 69u8, 84u8]
}

fn lit_get() -> (v: Vec<u8>)
    ensures
        v@ == spec_get(),
{
    let v: Vec<u8> = vec![71u8, 69u8, 84u8];
    proof {
        assert(v@ =~= spec_get());
    }
    v
}

/// The bytes of `"POST"`.
pub open spec fn spec_post() -> Seq<u8> {
    seq![80u8, 79u8, 83u8, 84u8]
}

fn lit_post() -> (v: Vec<u8>)
    ensures
        v@ == spec_post(),
{
    let v: Vec<u8> = vec![80u8, 79u8, 83u8, 84u8];
    proof {
        assert(v@ =~= spec_post());
    }
    v
}

/// The bytes of `"PUT"`.
pub open spec fn spec_put() -> Seq<u8> {
    seq![80u8, 85u8, 84u8]
}

fn lit_put() -> (v: Vec<u8>)
    ensures
        v@ == spec_put(),
{
    let v: Vec<u8> = vec![80u8, 85u8, 84u8];
    proof {
        assert(v@ =~= spec_put());
    }
    v
}

/// The bytes of `"DELETE"`.
pub open spec fn spec_delete() -> Seq<u8> {
    seq![68u8, 69u8, 76u8, 69u8, 84u8, 69u8]
}

fn lit_delete() -> (v: Vec<u8>)
    ensures
        v@ == spec_delete(),
{
    let v: Vec<u8> = vec![68u8, 69u8, 76u8, 69u8, 84u8, 69u8];
    proof {
        assert(v@ =~= spec_delete());
    }
    v
}

/// The bytes of `" HTTP/1.1"`.
pub open spec fn spec_http_tail() -> Seq<u8> {
    seq![32u8, 72u8, 84u8, 84u8, 80u8, 47u8, 49u8, 46u8, 49u8]
}

fn lit_http_tail() -> (v: Vec<u8>)
    ensures
        v@ == spec_http_tail(),
{
    let v: Vec<u8> = vec![32u8, 72u8, 84u8, 84u8, 80u8, 47u8, 49u8, 46u8, 49u8];
    proof {
        assert(v@ =~= spec_http_tail());
    }
    v
}

/// The bytes of `"HTTP/1.1 200 OK\r\nContent-Length: "`.
pub open spec fn spec_ok_prefix() -> Seq<u8> {
    seq![72u8, 84u8, 84u8, 80u8, 47u8, 49u8, 46u8, 49u8, 32u8, 50u8, 48u8, 48u8, 32u8, 79u8, 75u8, 13u8, 10u8, 67u8, 111u8, 110u8, 116u8, 101u8, 110u8, 116u8, 45u8, 76u8, 101u8, 110u8, 103u8, 116u8, 104u8, 58u8, 32u8]
}

fn lit_ok_prefix() -> (v: Vec<u8>)
    ensures
        v@ == spec_ok_prefix(),
{
    let v: Vec<u8> = vec![72u8, 84u8, 84u8, 80u8, 47u8, 49u8, 46u8, 49u8, 32u8, 50u8, 48u8, 48u8, 32u8, 79u8, 75u8, 13u8, 10u8, 67u8, 111u8, 110u8, 116u8, 101u8, 110u8, 116u8, 45u8, 76u8, 101u8, 110u8, 103u8, 116u8, 104u8, 58u8, 32u8];
    proof {
        assert(v@ =~= spec_ok_prefix());
    }
    v
}

/// The bytes of `"HTTP/1.1 403 Forbidden\r\nContent-Length: "`.
pub open spec fn spec_forbidden_prefix() -> Seq<u8> {
    seq![72u8, 84u8, 84u8, 80u8, 47u8, 49u8, 46u8, 49u8, 32u8, 52u8, 48u8, 51u8, 32u8, 70u8, 111u8, 114u8, 98u8, 105u8, 100u8, 100u8, 101u8, 110u8, 13u8, 10u8, 67u8, 111u8, 110u8, 116u8, 101u8, 110u8, 116u8, 45u8, 76u8, 101u8, 110u8, 103u8, 116u8, 104u8, 58u8, 32u8]
}

fn lit_forbidden_prefix() -> (v: Vec<u8>)
    ensures
        v@ == spec_forbidden_prefix(),
{
    let v: Vec<u8> = vec![72u8, 84u8, 84u8, 80u8, 47u8, 49u8, 46u8, 49u8, 32u8, 52u8, 48u8, 51u8, 32u8, 70u8, 111u8, 114u8, 98u8, 105u8, 100u8, 100u8, 101u8, 110u8, 13u8, 10u8, 67u8, 111u8, 110u8, 116u8, 101u8, 110u8, 116u8, 45u8, 76u8, 101u8, 110u8, 103u8, 116u8, 104u8, 58u8, 32u8];
    proof {
        assert(v@ =~= spec_forbidden_prefix());
    }
    v
}

/// The bytes of `"\r\n\r\n"`.
pub open spec fn spec_header_end() -> Seq<u8> {
    seq![13u8, 10u8, 13u8, 10u8]
}

fn lit_header_end() -> (v: Vec<u8>)
    ensures
        v@ == spec_header_end(),
{
    let v: Vec<u8> = vec![13u8, 10u8, 13u8, 10u8];
    proof {
        assert(v@ =~= spec_header_end());
    }
    v
}

/// The bytes of `"HTTP/1.1 405 Method Not Allowed\r\n\r\n"`.
pub open spec fn spec_method_not_allowed() -> Seq<u8> {
    seq![72u8, 84u8, 84u8, 80u8, 47u8, 49u8, 46u8, 49u8, 32u8, 52u8, 48u8, 53u8, 32u8, 77u8, 101u8, 116u8, 104u8, 111u8, 100u8, 32u8, 78u8, 111u8, 116u8, 32u8, 65u8, 108u8, 108u8, 111u8, 119u8, 101u8, 100u8, 13u8, 10u8, 13u8, 10u8]
}

fn lit_method_not_allowed() -> (v: Vec<u8>)
    ensures
        v@ == spec_method_not_allowed(),
{
    let v: Vec<u8> = vec![72u8, 84u8, 84u8, 80u8, 47u8, 49u8, 46u8, 49u8, 32u8, 52u8, 48u8, 53u8, 32u8, 77u8, 101u8, 116u8, 104u8, 111u8, 100u8, 32u8, 78u8, 111u8, 116u8, 32u8, 65u8, 108u8, 108u8, 111u8, 119u8, 101u8, 100u8, 13u8, 10u8, 13u8, 10u8];
    proof {
        assert(v@ =~= spec_method_not_allowed());
    }
    v
}

/// The bytes of `"Success\n"`.
pub open spec fn spec_success_body() -> Seq<u8> {
    seq![83u8, 117u8, 99u8, 99u8, 101u8, 115u8, 115u8, 10u8]
}

fn lit_success_body() -> (v: Vec<u8>)
    ensures
        v@ == spec_success_body(),
{
    let v: Vec<u8> = vec![83u8, 117u8, 99u8, 99u8, 101u8, 115u8, 115u8, 10u8];
    proof {
        assert(v@ =~= spec_success_body());
    }
    v
}

/// The bytes of `"Success, Bye bye!\n"`.
pub open spec fn spec_bye_body() -> Seq<u8> {
    seq![83u8, 117u8, 99u8, 99u8, 101u8, 115u8, 115u8, 44u8, 32u8, 66u8, 121u8, 101u8, 32u8, 98u8, 121u8, 101u8, 33u8, 10u8]
}

fn lit_bye_body() -> (v: Vec<u8>)
    ensures
        v@ == spec_bye_body(),
{
    let v: Vec<u8> = vec![83u8, 117u8, 99u8, 99u8, 101u8, 115u8, 115u8, 44u8, 32u8, 66u8, 121u8, 101u8, 32u8, 98u8, 121u8, 101u8, 33u8, 10u8];
    proof {
        assert(v@ =~= spec_bye_body());
    }
    v
}

/// The bytes of `"Access Denied\n"`.
pub open spec fn spec_denied_body() -> Seq<u8> {
    seq![65u8, 99u8, 99u8, 101u8, 115u8, 115u8, 32u8, 68u8, 101u8, 110u8, 105u8, 101u8, 100u8, 10u8]
}

fn lit_denied_body() -> (v: Vec<u8>)
    ensures
        v@ == spec_denied_body(),
{
    let v: Vec<u8> = vec![65u8, 99u8, 99u8, 101u8, 115u8, 115u8, 32u8, 68u8, 101u8, 110u8, 105u8, 101u8, 100u8, 10u8];
    proof {
        assert(v@ =~= spec_denied_body());
    }
    v
}

/// The bytes of `"##METHOD##"`.
pub open spec fn spec_method_marker() -> Seq<u8> {
    seq![35u8, 35u8, 77u8, 69u8, 84u8, 72u8, 79u8, 68u8, 35u8, 35u8]
}

fn lit_method_marker() -> (v: Vec<u8>)
    ensures
        v@ == spec_method_marker(),
{
    let v: Vec<u8> = vec![35u8, 35u8, 77u8, 69u8, 84u8, 72u8, 79u8, 68u8, 35u8, 35u8];
    proof {
        assert(v@ =~= spec_method_marker());
    }
    v
}

/// The bytes of `"##URI##"`.
pub open spec fn spec_uri_marker() -> Seq<u8> {
    seq![35u8, 35u8, 85u8, 82u8, 73u8, 35u8, 35u8]
}

fn lit_uri_marker() -> (v: Vec<u8>)
    ensures
        v@ == spec_uri_marker(),
{
    let v: Vec<u8> = vec![35u8, 35u8, 85u8, 82u8, 73u8, 35u8, 35u8];
    proof {
        assert(v@ =~= spec_uri_marker());
    }
    v
}

/// The bytes of `"/"`.
pub open spec fn spec_root_uri() -> Seq<u8> {
    seq![47u8]
}

fn lit_root_uri() -> (v: Vec<u8>)
    ensures
        v@ == spec_root_uri(),
{
    let v: Vec<u8> = vec![47u8];
    proof {
        assert(v@ =~= spec_root_uri());
    }
    v
}

/// The bytes of `"/index.html"`.
pub open spec fn spec_index_uri() -> Seq<u8> {
    seq![47u8, 105u8, 110u8, 100u8, 101u8, 120u8, 46u8, 104u8, 116u8, 109u8, 108u8]
}

fn lit_index_uri() -> (v: Vec<u8>)
    ensures
        v@ == spec_index_uri(),
{
    let v: Vec<u8> = vec![47u8, 105u8, 110u8, 100u8, 101u8, 120u8, 46u8, 104u8, 116u8, 109u8, 108u8];
    proof {
        assert(v@ =~= spec_index_uri());
    }
    v
}

/// The bytes of `"/error"`.
pub open spec fn spec_error_uri() -> Seq<u8> {
    seq![47u8, 101u8, 114u8, 114u8, 111u8, 114u8]
}

fn lit_error_uri() -> (v: Vec<u8>)
    ensures
        v@ == spec_error_uri(),
{
    let v: Vec<u8> = vec![47u8, 101u8, 114u8, 114u8, 111u8, 114u8];
    proof {
        assert(v@ =~= spec_error_uri());
    }
    v
}

/// The bytes of `"/now"`.
pub open spec fn spec_now_uri() -> Seq<u8> {
    seq![47u8, 110u8, 111u8, 119u8]
}

fn lit_now_uri() -> (v: Vec<u8>)
    ensures
        v@ == spec_now_uri(),
{
    let v: Vec<u8> = vec![47u8, 110u8, 111u8, 119u8];
    proof {
        assert(v@ =~= spec_now_uri());
    }
    v
}

/// The bytes of `"/make_cat"`.
pub open spec fn spec_make_cat_uri() -> Seq<u8> {
    seq![47u8, 109u8, 97u8, 107u8, 101u8, 95u8, 99u8, 97u8, 116u8]
}

fn lit_make_cat_uri() -> (v: Vec<u8>)
    ensures
        v@ == spec_make_cat_uri(),
{
    let v: Vec<u8> = vec![47u8, 109u8, 97u8, 107u8, 101u8, 95u8, 99u8, 97u8, 116u8];
    proof {
        assert(v@ =~= spec_make_cat_uri());
    }
    v
}

/// The bytes of `"/make_dog"`.
pub open spec fn spec_make_dog_uri() -> Seq<u8> {
    seq![47u8, 109u8, 97u8, 107u8, 101u8, 95u8, 100u8, 111u8, 103u8]
}

fn lit_make_dog_uri() -> (v: Vec<u8>)
    ensures
        v@ == spec_make_dog_uri(),
{
    let v: Vec<u8> = vec![47u8, 109u8, 97u8, 107u8, 101u8, 95u8, 100u8, 111u8, 103u8];
    proof {
        assert(v@ =~= spec_make_dog_uri());
    }
    v
}

/// The bytes of `"/sleep"`.
pub open spec fn spec_sleep_uri() -> Seq<u8> {
    seq![47u8, 115u8, 108u8, 101u8, 101u8, 112u8]
}

fn lit_sleep_uri() -> (v: Vec<u8>)
    ensures
        v@ == spec_sleep_uri(),
{
    let v: Vec<u8> = vec![47u8, 115u8, 108u8, 101u8, 101u8, 112u8];
    proof {
        assert(v@ =~= spec_sleep_uri());
    }
    v
}

/// The bytes of `"/kill_server"`.
pub open spec fn spec_kill_uri() -> Seq<u8> {
    seq![47u8, 107u8, 105u8, 108u8, 108u8, 95u8, 115u8, 101u8, 114u8, 118u8, 101u8, 114u8]
}

fn lit_kill_uri() -> (v: Vec<u8>)
    ensures
        v@ == spec_kill_uri(),
{
    let v: Vec<u8> = vec![47u8, 107u8, 105u8, 108u8, 108u8, 95u8, 115u8, 101u8, 114u8, 118u8, 101u8, 114u8];
    proof {
        assert(v@ =~= spec_kill_uri());
    }
    v
}
/// Whether two byte strings hold the same bytes.
fn bytes_eq(a: &[u8], b: &[u8]) -> (r: bool)
    ensures
        r == (a@ == b@),
{
    if a.len() != b.len() {
        return false;
    }
    let mut i: usize = 0;
    while i < a.len()
        invariant
            i <= a.len(),
            a.len() == b.len(),
            forall|j: int| 0 <= j < i ==> a@[j] == b@[j],
        decreases a.len() - i,
    {
        if a[i] != b[i] {
            return false;
        }
        i += 1;
    }
    proof {
        assert(a@ =~= b@);
    }
    true
}

/// Whether `pat` occurs in `s` starting at position `i`.
fn matches_at(s: &[u8], i: usize, pat: &[u8]) -> (r: bool)
    requires
        i <= s@.len(),
    ensures
        r == (i + pat@.len() <= s@.len() && s@.subrange(i as int, i + pat@.len()) == pat@),
{
    if pat.len() > s.len() - i {
        return false;
    }
    let mut j: usize = 0;
    while j < pat.len()
        invariant
            j <= pat.len(),
            i + pat.len() <= s.len(),
            forall|q: int| 0 <= q < j ==> s@[i + q] == pat@[q],
        decreases pat.len() - j,
    {
        if s[i + j] != pat[j] {
            proof {
                assert(s@.subrange(i as int, i + pat@.len())[j as int] == s@[i + j]);
            }
            return false;
        }
        j += 1;
    }
    proof {
        assert(s@.subrange(i as int, i + pat@.len()) =~= pat@);
    }
    true
}

/// Append every byte of `src` to `dst`.
fn push_all(dst: &mut Vec<u8>, src: &[u8])
    ensures
        final(dst)@ == old(dst)@ + src@,
{
    let mut j: usize = 0;
    while j < src.len()
        invariant
            j <= src.len(),
            dst@ == old(dst)@ + src@.take(j as int),
        decreases src.len() - j,
    {
        dst.push(src[j]);
        j += 1;
        proof {
            assert(dst@ =~= old(dst)@ + src@.take(j as int));
        }
    }
    proof {
        assert(dst@ =~= old(dst)@ + src@);
    }
}

/// Copy the bytes of `s` between positions `a` and `b` into a fresh vector.
fn subvec(s: &[u8], a: usize, b: usize) -> (v: Vec<u8>)
    requires
        a <= b <= s@.len(),
    ensures
        v@ == s@.subrange(a as int, b as int),
{
    let mut v: Vec<u8> = Vec::new();
    let mut j: usize = a;
    while j < b
        invariant
            a <= j <= b <= s@.len(),
            v@ == s@.subrange(a as int, j as int),
        decreases b - j,
    {
        v.push(s[j]);
        j += 1;
        proof {
            assert(v@ =~= s@.subrange(a as int, j as int));
        }
    }
    v
}

/// The decimal digits of `n`, most significant first.
pub open spec fn spec_decimal(n: nat) -> Seq<u8>
    decreases n,
{
    if n < 10 {
        seq![(48 + n) as u8]
    } else {
        spec_decimal(n / 10).push((48 + n % 10) as u8)
    }
}

/// Render `n` in decimal, for the length field of a response header.
pub fn decimal_bytes(n: usize) -> (v: Vec<u8>)
    ensures
        v@ == spec_decimal(n as nat),
    decreases n,
{
    if n < 10 {
        let v: Vec<u8> = vec![48 + (n as u8)];
        proof {
            assert(v@ =~= spec_decimal(n as nat));
        }
        v
    } else {
        let mut v = decimal_bytes(n / 10);
        v.push(48 + ((n % 10) as u8));
        v
    }
}

/// `s` with every run of two or more slashes collapsed to one slash.
pub open spec fn spec_collapse(s: Seq<u8>) -> Seq<u8>
    decreases s.len(),
{
    if s.len() == 0 {
        s
    } else if s.len() >= 2 && s[0] == 47u8 && s[1] == 47u8 {
        spec_collapse(s.skip(1))
    } else {
        seq![s[0]] + spec_collapse(s.skip(1))
    }
}

/// Collapse every run of repeated slashes in `s` to a single slash: the
/// server normalizes request paths this way before routing.
pub fn collapse_slashes(s: &[u8]) -> (v: Vec<u8>)
    ensures
        v@ == spec_collapse(s@),
{
    let mut v: Vec<u8> = Vec::new();
    let mut i: usize = 0;
    proof {
        assert(s@.skip(0) =~= s@);
        assert(v@ + spec_collapse(s@) =~= spec_collapse(s@));
    }
    while i < s.len()
        invariant
            i <= s@.len(),
            v@ + spec_collapse(s@.skip(i as int)) == spec_collapse(s@),
        decreases s@.len() - i,
    {
        let ghost pre = s@.skip(i as int);
        proof {
            assert(pre[0] == s@[i as int]);
            if i + 1 < s@.len() {
                assert(pre[1] == s@[i + 1]);
            }
            assert(pre.skip(1) =~= s@.skip(i + 1));
        }
        if s[i] == 47 && i + 1 < s.len() && s[i + 1] == 47 {
            proof {
                assert(spec_collapse(pre) == spec_collapse(s@.skip(i + 1)));
            }
        } else {
            let ghost vpre = v@;
            v.push(s[i]);
            proof {
                assert(spec_collapse(pre) == seq![pre[0]] + spec_collapse(pre.skip(1)));
                assert(v@ =~= vpre + seq![s@[i as int]]);
                assert(v@ + spec_collapse(s@.skip(i + 1)) =~= vpre + spec_collapse(pre));
            }
        }
        i += 1;
    }
    proof {
        assert(s@.skip(i as int) =~= Seq::<u8>::empty());
        assert(v@ + spec_collapse(s@.skip(i as int)) =~= v@);
    }
    v
}

/// `s` with every occurrence of `pat` replaced by `to`, scanning left to
/// right without rescanning replaced text, the way the template markers of
/// a page are filled in. An empty pattern replaces nothing.
pub open spec fn spec_replace(s: Seq<u8>, pat: Seq<u8>, to: Seq<u8>) -> Seq<u8>
    decreases s.len(),
{
    if pat.len() == 0 || s.len() < pat.len() {
        s
    } else if s.take(pat.len() as int) == pat {
        to + spec_replace(s.skip(pat.len() as int), pat, to)
    } else {
        seq![s[0]] + spec_replace(s.skip(1), pat, to)
    }
}

/// Replace every occurrence of `pat` in `s` by `to`, leftmost first,
/// never rescanning replaced text.
pub fn replace_all(s: &[u8], pat: &[u8], to: &[u8]) -> (v: Vec<u8>)
    requires
        pat@.len() >= 1,
    ensures
        v@ == spec_replace(s@, pat@, to@),
{
    let mut v: Vec<u8> = Vec::new();
    let mut i: usize = 0;
    proof {
        assert(s@.skip(0) =~= s@);
        assert(v@ + spec_replace(s@, pat@, to@) =~= spec_replace(s@, pat@, to@));
    }
    while i < s.len()
        invariant
            i <= s@.len(),
            pat@.len() >= 1,
            v@ + spec_replace(s@.skip(i as int), pat@, to@) == spec_replace(s@, pat@, to@),
        decreases s@.len() - i,
    {
        let ghost pre = s@.skip(i as int);
        let hit = matches_at(s, i, pat);
        if hit {
            let ghost vpre = v@;
            push_all(&mut v, to);
            proof {
                assert(pre.take(pat@.len() as int) =~= s@.subrange(i as int, i + pat@.len()));
                assert(pre.skip(pat@.len() as int) =~= s@.skip(i + pat@.len()));
                assert(spec_replace(pre, pat@, to@) == to@ + spec_replace(
                    s@.skip(i + pat@.len()),
                    pat@,
                    to@,
                ));
                assert(v@ + spec_replace(s@.skip(i + pat@.len()), pat@, to@) =~= vpre
                    + spec_replace(pre, pat@, to@));
            }
            i += pat.len();
        } else {
            let ghost vpre = v@;
            v.push(s[i]);
            proof {
                assert(pre[0] == s@[i as int]);
                assert(pre.skip(1) =~= s@.skip(i + 1));
                if pre.len() < pat@.len() {
                    assert(spec_replace(pre, pat@, to@) == pre);
                    assert(spec_replace(s@.skip(i + 1), pat@, to@) == s@.skip(i + 1));
                    assert(spec_replace(pre, pat@, to@) =~= seq![pre[0]] + spec_replace(
                        s@.skip(i + 1),
                        pat@,
                        to@,
                    ));
                } else {
                    assert(pre.take(pat@.len() as int) =~= s@.subrange(i as int, i + pat@.len()));
                    assert(spec_replace(pre, pat@, to@) == seq![pre[0]] + spec_replace(
                        pre.skip(1),
                        pat@,
                        to@,
                    ));
                }
                assert(v@ =~= vpre + seq![s@[i as int]]);
                assert(v@ + spec_replace(s@.skip(i + 1), pat@, to@) =~= vpre + spec_replace(
                    pre,
                    pat@,
                    to@,
                ));
            }
            i += 1;
        }
    }
    proof {
        assert(s@.skip(i as int) =~= Seq::<u8>::empty());
        assert(spec_replace(s@.skip(i as int), pat@, to@) == s@.skip(i as int));
        assert(v@ + spec_replace(s@.skip(i as int), pat@, to@) =~= v@);
    }
    v
}

/// A success reply: status line, the body's length, a blank line, the body.
pub open spec fn spec_ok_response(body: Seq<u8>) -> Seq<u8> {
    spec_ok_prefix() + spec_decimal(body.len()) + spec_header_end() + body
}

/// A forbidden reply: status line, the body's length, a blank line, the body.
pub open spec fn spec_forbidden_response(body: Seq<u8>) -> Seq<u8> {
    spec_forbidden_prefix() + spec_decimal(body.len()) + spec_header_end() + body
}

/// The reply for the current time: the length field counts the timestamp
/// alone, while the body carries one trailing newline after it.
pub open spec fn spec_now_response(now: Seq<u8>) -> Seq<u8> {
    spec_ok_prefix() + spec_decimal(now.len()) + spec_header_end() + now + seq![10u8]
}

fn ok_response(body: &[u8]) -> (v: Vec<u8>)
    ensures
        v@ == spec_ok_response(body@),
{
    let mut v = lit_ok_prefix();
    let d = decimal_bytes(body.len());
    push_all(&mut v, d.as_slice());
    let e = lit_header_end();
    push_all(&mut v, e.as_slice());
    push_all(&mut v, body);
    v
}

fn forbidden_response(body: &[u8]) -> (v: Vec<u8>)
    ensures
        v@ == spec_forbidden_response(body@),
{
    let mut v = lit_forbidden_prefix();
    let d = decimal_bytes(body.len());
    push_all(&mut v, d.as_slice());
    let e = lit_header_end();
    push_all(&mut v, e.as_slice());
    push_all(&mut v, body);
    v
}

fn now_response(now: &[u8]) -> (v: Vec<u8>)
    ensures
        v@ == spec_now_response(now@),
{
    let mut v = lit_ok_prefix();
    let d = decimal_bytes(now.len());
    push_all(&mut v, d.as_slice());
    let e = lit_header_end();
    push_all(&mut v, e.as_slice());
    push_all(&mut v, now);
    v.push(10);
    proof {
        assert(v@ =~= spec_now_response(now@));
    }
    v
}

/// The fixed page texts, read once at startup and never changed.
pub struct Pages {
    pub home: Vec<u8>,
    pub forbidden: Vec<u8>,
    pub reply_template: Vec<u8>,
}

/// What the caller must do with one request: write this response, after
/// sleeping the given time, and deliver a termination request to the
/// process if asked.
pub struct Reply {
    pub response: Vec<u8>,
    pub sleep_ms: u64,
    pub kill: bool,
}

/// The routing table: for each method and normalized path, the response
/// bytes, the milliseconds to sleep before replying, and whether the
/// process is asked to shut down.
pub open spec fn spec_route(
    method: Seq<u8>,
    uri: Seq<u8>,
    home: Seq<u8>,
    forbidden: Seq<u8>,
    template: Seq<u8>,
    now: Seq<u8>,
) -> (Seq<u8>, u64, bool) {
    if method == spec_get() {
        if uri == spec_root_uri() || uri == spec_index_uri() {
            (spec_ok_response(home), 0u64, false)
        } else if uri == spec_error_uri() {
            (spec_forbidden_response(forbidden), 0u64, false)
        } else if uri == spec_now_uri() {
            (spec_now_response(now), 0u64, false)
        } else {
            (
                spec_ok_response(
                    spec_replace(
                        spec_replace(template, spec_method_marker(), method),
                        spec_uri_marker(),
                        uri,
                    ),
                ),
                0u64,
                false,
            )
        }
    } else if method == spec_put() || method == spec_post() {
        if uri == spec_make_cat_uri() || uri == spec_make_dog_uri() {
            (spec_ok_response(spec_success_body()), 0u64, false)
        } else if uri == spec_sleep_uri() {
            (spec_ok_response(spec_success_body()), 10000u64, false)
        } else if uri == spec_kill_uri() {
            (spec_ok_response(spec_bye_body()), 0u64, true)
        } else {
            (spec_forbidden_response(spec_denied_body()), 0u64, false)
        }
    } else {
        (spec_method_not_allowed(), 0u64, false)
    }
}

/// Answer one parsed request. `method` and `uri` are the parsed request
/// line (the path already slash-collapsed), `now` is the current timestamp,
/// used only by the route that reports the time.
pub fn route_response(method: &[u8], uri: &[u8], pages: &Pages, now: &[u8]) -> (r: Reply)
    ensures
        (r.response@, r.sleep_ms, r.kill) == spec_route(
            method@,
            uri@,
            pages.home@,
            pages.forbidden@,
            pages.reply_template@,
            now@,
        ),
{
    let get = lit_get();
    let put = lit_put();
    let post = lit_post();
    if bytes_eq(method, get.as_slice()) {
        let root = lit_root_uri();
        let index = lit_index_uri();
        let error = lit_error_uri();
        let nowu = lit_now_uri();
        if bytes_eq(uri, root.as_slice()) || bytes_eq(uri, index.as_slice()) {
            Reply { response: ok_response(pages.home.as_slice()), sleep_ms: 0, kill: false }
        } else if bytes_eq(uri, error.as_slice()) {
            Reply {
                response: forbidden_response(pages.forbidden.as_slice()),
                sleep_ms: 0,
                kill: false,
            }
        } else if bytes_eq(uri, nowu.as_slice()) {
            Reply { response: now_response(now), sleep_ms: 0, kill: false }
        } else {
            let marker = lit_method_marker();
            let umarker = lit_uri_marker();
            let step1 = replace_all(pages.reply_template.as_slice(), marker.as_slice(), method);
            let content = replace_all(step1.as_slice(), umarker.as_slice(), uri);
            Reply { response: ok_response(content.as_slice()), sleep_ms: 0, kill: false }
        }
    } else if bytes_eq(method, put.as_slice()) || bytes_eq(method, post.as_slice()) {
        let cat = lit_make_cat_uri();
        let dog = lit_make_dog_uri();
        let sleep = lit_sleep_uri();
        let kill = lit_kill_uri();
        if bytes_eq(uri, cat.as_slice()) || bytes_eq(uri, dog.as_slice()) {
            let body = lit_success_body();
            Reply { response: ok_response(body.as_slice()), sleep_ms: 0, kill: false }
        } else if bytes_eq(uri, sleep.as_slice()) {
            let body = lit_success_body();
            Reply { response: ok_response(body.as_slice()), sleep_ms: 10000, kill: false }
        } else if bytes_eq(uri, kill.as_slice()) {
            let body = lit_bye_body();
            Reply { response: ok_response(body.as_slice()), sleep_ms: 0, kill: true }
        } else {
            let body = lit_denied_body();
            Reply { response: forbidden_response(body.as_slice()), sleep_ms: 0, kill: false }
        }
    } else {
        Reply { response: lit_method_not_allowed(), sleep_ms: 0, kill: false }
    }
}

/// The request method that matches at position `i` of `s`, if any, trying
/// the alternatives in the grammar's order. No method is a prefix of
/// another, so at most one can match at a given position.
pub open spec fn spec_method_at(s: Seq<u8>, i: int) -> Option<Seq<u8>> {
    if i >= 0 && i + 3 <= s.len() && s.subrange(i, i + 3) == spec_get() {
        Some(spec_get())
    } else if i >= 0 && i + 4 <= s.len() && s.subrange(i, i + 4) == spec_post() {
        Some(spec_post())
    } else if i >= 0 && i + 3 <= s.len() && s.subrange(i, i + 3) == spec_put() {
        Some(spec_put())
    } else if i >= 0 && i + 6 <= s.len() && s.subrange(i, i + 6) == spec_delete() {
        Some(spec_delete())
    } else {
        None
    }
}

/// A run of slashes from `e` up to `k`, then the literal `" HTTP/1.1"` at `k`.
pub open spec fn spec_tail_at(s: Seq<u8>, e: int, k: int) -> bool {
    &&& e <= k
    &&& k + 9 <= s.len()
    &&& (forall|q: int| e <= q < k ==> s[q] == 47u8)
    &&& s.subrange(k, k + 9) == spec_http_tail()
}

/// The path group that starts at `u` may end at `e`: it is non-empty, has
/// no newline after its leading slash, and is followed by optional extra
/// slashes and then the protocol tail.
pub open spec fn spec_path_end_ok(s: Seq<u8>, u: int, e: int) -> bool {
    &&& u + 1 <= e <= s.len()
    &&& (forall|q: int| u < q < e ==> s[q] != 10u8)
    &&& exists|k: int| e <= k && spec_tail_at(s, e, k)
}

/// The whole request line matches at position `i` of `s`, with the path
/// group ending at `e`: a method, one space, a path beginning with a slash,
/// then slashes and the protocol tail.
pub open spec fn spec_match_at(s: Seq<u8>, i: int, e: int) -> bool {
    match spec_method_at(s, i) {
        Some(m) => {
            let u = i + m.len() + 1;
            &&& i + m.len() < s.len()
            &&& s[i + m.len()] == 32u8
            &&& u < s.len()
            &&& s[u] == 47u8
            &&& spec_path_end_ok(s, u, e)
        },
        None => false,
    }
}

/// Some end position makes the request line match at position `i`.
pub open spec fn spec_match_from(s: Seq<u8>, i: int) -> bool {
    exists|e: int| spec_match_at(s, i, e)
}

/// The smallest end of the path group starting at `u`, if the line can be
/// completed at all: the group is matched lazily, so the shortest path that
/// still leaves a slash run and the protocol tail wins.
fn find_uri_end(text: &[u8], u: usize) -> (res: Option<usize>)
    requires
        u < text@.len(),
    ensures
        match res {
            Some(e) => spec_path_end_ok(text@, u as int, e as int) && (forall|e2: int|
                e2 < e ==> !spec_path_end_ok(text@, u as int, e2)),
            None => forall|e2: int| !spec_path_end_ok(text@, u as int, e2),
        },
{
    let n = text.len();
    let tail = lit_http_tail();
    let mut e = u + 1;
    while e < n
        invariant
            u < n,
            n == text@.len(),
            u + 1 <= e <= n,
            tail@ == spec_http_tail(),
            forall|e2: int| e2 < e ==> !spec_path_end_ok(text@, u as int, e2),
            forall|q: int| u < q < e && q < n ==> text@[q] != 10u8,
        decreases n - e,
    {
        let mut k = e;
        while k < n && text[k] == 47
            invariant
                n == text@.len(),
                e <= k <= n,
                forall|q: int| e <= q < k ==> text@[q] == 47u8,
            decreases n - k,
        {
            k += 1;
        }
        if matches_at(text, k, tail.as_slice()) {
            proof {
                assert(spec_tail_at(text@, e as int, k as int));
                assert(spec_path_end_ok(text@, u as int, e as int));
            }
            return Some(e);
        }
        proof {
            assert forall|k2: int| !(e <= k2 && spec_tail_at(text@, e as int, k2)) by {
                if e <= k2 && spec_tail_at(text@, e as int, k2) {
                    if k2 < k {
                        assert(text@.subrange(k2, k2 + 9)[0] == text@[k2]);
                        assert(text@[k2] == 47u8);
                    } else if k2 > k {
                        if k < n {
                            assert(text@[k as int] == 47u8);
                        }
                    }
                }
            }
            assert(!spec_path_end_ok(text@, u as int, e as int));
        }
        if e < n && text[e] == 10 {
            proof {
                assert forall|e2: int| !spec_path_end_ok(text@, u as int, e2) by {
                    if spec_path_end_ok(text@, u as int, e2) {
                        if e2 > e {
                            assert(text@[e as int] != 10u8);
                        }
                    }
                }
            }
            return None;
        }
        e += 1;
    }
    proof {
        assert forall|e2: int| !spec_path_end_ok(text@, u as int, e2) by {
            if spec_path_end_ok(text@, u as int, e2) {
                assert(e2 <= n);
                if e2 >= n {
                    let k = choose|k: int| e2 <= k && spec_tail_at(text@, e2, k);
                    assert(k + 9 <= n);
                }
            }
        }
    }
    None
}

/// Attempt a full request-line match at position `i`: the method bytes and
/// the lazily matched path bytes, or nothing if no end position works here.
fn try_match_at(text: &[u8], i: usize) -> (res: Option<(Vec<u8>, Vec<u8>)>)
    requires
        i < text@.len(),
    ensures
        match res {
            Some(p) => exists|e: int|
                spec_match_at(text@, i as int, e) && (forall|e2: int|
                    e2 < e ==> !spec_match_at(text@, i as int, e2)) && p.0@ == spec_method_at(
                    text@,
                    i as int,
                ).unwrap() && p.1@ == text@.subrange(i + p.0@.len() + 1, e),
            None => forall|e: int| !spec_match_at(text@, i as int, e),
        },
{
    let n = text.len();
    let get = lit_get();
    let post = lit_post();
    let put = lit_put();
    let delete = lit_delete();
    let ghost mopt = spec_method_at(text@, i as int);
    let mut mlen: usize = 0;
    if matches_at(text, i, get.as_slice()) {
        mlen = 3;
        proof {
            assert(mopt == Some(spec_get()));
        }
    } else if matches_at(text, i, post.as_slice()) {
        mlen = 4;
        proof {
            assert(mopt == Some(spec_post()));
        }
    } else if matches_at(text, i, put.as_slice()) {
        mlen = 3;
        proof {
            assert(mopt == Some(spec_put()));
        }
    } else if matches_at(text, i, delete.as_slice()) {
        mlen = 6;
        proof {
            assert(mopt == Some(spec_delete()));
        }
    } else {
        proof {
            assert(mopt is None);
        }
        return None;
    }
    proof {
        assert(mopt is Some && mopt.unwrap().len() == mlen);
    }
    if mlen >= n - i {
        proof {
            assert forall|e: int| !spec_match_at(text@, i as int, e) by {}
        }
        return None;
    }
    if text[i + mlen] != 32 {
        proof {
            assert forall|e: int| !spec_match_at(text@, i as int, e) by {}
        }
        return None;
    }
    let u = i + mlen + 1;
    if u >= n {
        proof {
            assert forall|e: int| !spec_match_at(text@, i as int, e) by {}
        }
        return None;
    }
    if text[u] != 47 {
        proof {
            assert forall|e: int| !spec_match_at(text@, i as int, e) by {}
        }
        return None;
    }
    match find_uri_end(text, u) {
        Some(e) => {
            let method = subvec(text, i, i + mlen);
            let uri = subvec(text, u, e);
            proof {
                assert(spec_match_at(text@, i as int, e as int));
                assert forall|e2: int| e2 < e implies !spec_match_at(text@, i as int, e2) by {
                    assert(!spec_path_end_ok(text@, u as int, e2));
                }
                assert(method@ == mopt.unwrap());
            }
            Some((method, uri))
        },
        None => {
            proof {
                assert forall|e: int| !spec_match_at(text@, i as int, e) by {
                    assert(!spec_path_end_ok(text@, u as int, e));
                }
            }
            None
        },
    }
}

/// Parse an HTTP request line out of a raw buffer. The leftmost position
/// where one of the four methods, a space, and a slash-led path followed by
/// the protocol tail occur wins; the path is matched lazily, so trailing
/// slashes before the tail are left out; and a path never spans a newline.
/// On failure both results are empty.
pub fn parse_header(text: &[u8]) -> (r: (Vec<u8>, Vec<u8>))
    ensures
        (forall|i: int| !spec_match_from(text@, i)) ==> r.0@.len() == 0 && r.1@.len() == 0,
        (exists|i: int| spec_match_from(text@, i)) ==> exists|i: int, e: int|
            {
                &&& spec_match_at(text@, i, e)
                &&& (forall|i2: int| 0 <= i2 < i ==> !spec_match_from(text@, i2))
                &&& (forall|e2: int| e2 < e ==> !spec_match_at(text@, i, e2))
                &&& r.0@ == spec_method_at(text@, i).unwrap()
                &&& r.1@ == text@.subrange(i + spec_method_at(text@, i).unwrap().len() + 1, e)
            },
{
    let n = text.len();
    let mut i: usize = 0;
    while i < n
        invariant
            n == text@.len(),
            i <= n,
            forall|i2: int| 0 <= i2 < i ==> !spec_match_from(text@, i2),
        decreases n - i,
    {
        match try_match_at(text, i) {
            Some(p) => {
                proof {
                    let e = choose|e: int|
                        spec_match_at(text@, i as int, e) && (forall|e2: int|
                            e2 < e ==> !spec_match_at(text@, i as int, e2)) && p.0@
                            == spec_method_at(text@, i as int).unwrap() && p.1@ == text@.subrange(
                            i + p.0@.len() + 1,
                            e,
                        );
                    assert(spec_match_at(text@, i as int, e));
                    assert(spec_match_from(text@, i as int));
                }
                return p;
            },
            None => {
                proof {
                    assert(!spec_match_from(text@, i as int));
                }
                i += 1;
            },
        }
    }
    proof {
        assert forall|i2: int| !spec_match_from(text@, i2) by {
            if spec_match_from(text@, i2) {
                let e = choose|e: int| spec_match_at(text@, i2, e);
                assert(spec_method_at(text@, i2) is Some);
                assert(0 <= i2 < n);
            }
        }
    }
    (Vec::new(), Vec::new())
}

/// Relies on chrono's `Local::now` and `DateTime::to_rfc3339` for the
/// current local time rendered as an RFC 3339 string. Nothing is assumed of
/// the bytes that come back: they depend on the clock and the time zone, and
/// the caller must hold for every outcome.
#[verifier::external_body]
fn now_rfc3339() -> (r: Vec<u8>) {
    chrono::Local::now().to_rfc3339().into_bytes()
}

/// Handle one raw request buffer, everything between reading and writing a
/// connection: parse the request line, collapse repeated slashes in the
/// path, and route. `None` exactly when no request line is found, in which
/// case nothing is written back. The timestamp read for the time-reporting
/// route is whatever the clock gave: the reply is pinned for every value it
/// may take.
pub fn handle_request(buf: &[u8], pages: &Pages) -> (r: Option<Reply>)
    ensures
        r is None <==> (forall|i: int| !spec_match_from(buf@, i)),
        r matches Some(rep) ==> exists|i: int, e: int, now: Seq<u8>|
            {
                &&& spec_match_at(buf@, i, e)
                &&& (forall|i2: int| 0 <= i2 < i ==> !spec_match_from(buf@, i2))
                &&& (forall|e2: int| e2 < e ==> !spec_match_at(buf@, i, e2))
                &&& (rep.response@, rep.sleep_ms, rep.kill) == #[trigger] spec_route(
                    spec_method_at(buf@, i).unwrap(),
                    spec_collapse(
                        buf@.subrange(i + spec_method_at(buf@, i).unwrap().len() + 1, e),
                    ),
                    pages.home@,
                    pages.forbidden@,
                    pages.reply_template@,
                    now,
                )
            },
{
    let (method, uri) = parse_header(buf);
    if method.len() == 0 {
        return None;
    }
    let collapsed = collapse_slashes(uri.as_slice());
    let now = now_rfc3339();
    let reply = route_response(method.as_slice(), collapsed.as_slice(), pages, now.as_slice());
    proof {
        let (i, e) = choose|i: int, e: int|
            {
                &&& spec_match_at(buf@, i, e)
                &&& (forall|i2: int| 0 <= i2 < i ==> !spec_match_from(buf@, i2))
                &&& (forall|e2: int| e2 < e ==> !spec_match_at(buf@, i, e2))
                &&& method@ == spec_method_at(buf@, i).unwrap()
                &&& uri@ == buf@.subrange(i + spec_method_at(buf@, i).unwrap().len() + 1, e)
            };
        assert(spec_match_from(buf@, i));
        assert((reply.response@, reply.sleep_ms, reply.kill) == spec_route(
            spec_method_at(buf@, i).unwrap(),
            spec_collapse(buf@.subrange(i + spec_method_at(buf@, i).unwrap().len() + 1, e)),
            pages.home@,
            pages.forbidden@,
            pages.reply_template@,
            now@,
        ));
    }
    Some(reply)
}

} // verus!
