//! Small helpers on byte strings shared by the parsers.

use vstd::prelude::*;

verus! {

/// Whether two byte strings hold the same bytes.
pub fn bytes_eq(a: &[u8], b: &[u8]) -> (r: bool)
    ensures
        r == (a@ == b@),
{
    if a.len() != b.len() {
        return false;
    }
    let mut i: usize = 0;
    while i < a.len()
        invariant
            i <= a.len(),
            a.len() == b.len(),
            forall|k: int| 0 <= k < i ==> a@[k] == b@[k],
        decreases a.len() - i,
    {
        if a[i] != b[i] {
            return false;
        }
        i = i + 1;
    }
    assert(a@ =~= b@);
    true
}

/// A fresh vector holding `src[from..to]`.
pub fn copy_range(src: &[u8], from: usize, to: usize) -> (out: Vec<u8>)
    requires
        from <= to <= src.len(),
    ensures
        out@ == src@.subrange(from as int, to as int),
{
    let mut out: Vec<u8> = Vec::new();
    let mut i: usize = from;
    while i < to
        invariant
            from <= i <= to,
            to <= src.len(),
            out@ == src@.subrange(from as int, i as int),
        decreases to - i,
    {
        out.push(src[i]);
        assert(src@.subrange(from as int, i + 1) =~= src@.subrange(from as int, i as int).push(src@[i as int]));
        i = i + 1;
    }
    out
}

/// Whether `text` continues with `pat` at `at`.
pub open spec fn spec_has_at(text: Seq<u8>, at: int, pat: Seq<u8>) -> bool {
    0 <= at && at + pat.len() <= text.len() && text.subrange(at, at + pat.len()) == pat
}

/// Whether `text` continues with `pat` at `at`.
pub fn has_at(text: &[u8], at: usize, pat: &[u8]) -> (r: bool)
    ensures
        r == spec_has_at(text@, at as int, pat@),
{
    if at > text.len() || pat.len() > text.len() - at {
        return false;
    }
    let mut i: usize = 0;
    while i < pat.len()
        invariant
            i <= pat.len(),
            at + pat.len() <= text.len(),
            forall|k: int| 0 <= k < i ==> text@[at + k] == pat@[k],
        decreases pat.len() - i,
    {
        if text[at + i] != pat[i] {
            assert(text@.subrange(at as int, at + pat.len())[i as int] != pat@[i as int]);
            return false;
        }
        i = i + 1;
    }
    assert(text@.subrange(at as int, at + pat.len()) =~= pat@);
    true
}

/// ASCII letter or digit.
pub open spec fn is_alnum(c: u8) -> bool {
    (48 <= c <= 57) || (65 <= c <= 90) || (97 <= c <= 122)
}

/// A byte that may stand in a host name: letter, digit, `.` or `-`.
pub open spec fn is_domain_char(c: u8) -> bool {
    is_alnum(c) || c == 46 || c == 45
}

/// A byte that may stand in an account name: letter, digit, `.`, `-` or `_`.
pub open spec fn is_user_char(c: u8) -> bool {
    is_domain_char(c) || c == 95
}

/// The byte `@`.
pub const AT: u8 = 64;

/// End of the longest run of host-name bytes that starts at `from`.
pub open spec fn domain_run_end(text: Seq<u8>, from: int) -> int
    decreases text.len() - from,
{
    if 0 <= from < text.len() && is_domain_char(text[from]) {
        domain_run_end(text, from + 1)
    } else {
        from
    }
}

/// End of the longest run of account-name bytes that starts at `from`.
pub open spec fn user_run_end(text: Seq<u8>, from: int) -> int
    decreases text.len() - from,
{
    if 0 <= from < text.len() && is_user_char(text[from]) {
        user_run_end(text, from + 1)
    } else {
        from
    }
}

/// A run of host-name bytes holds nothing else and stops at the first other byte.
pub proof fn lemma_domain_run(text: Seq<u8>, from: int)
    requires
        0 <= from <= text.len(),
    ensures
        from <= domain_run_end(text, from) <= text.len(),
        forall|j: int| from <= j < domain_run_end(text, from) ==> is_domain_char(#[trigger] text[j]),
        domain_run_end(text, from) < text.len() ==> !is_domain_char(text[domain_run_end(text, from)]),
    decreases text.len() - from,
{
    if from < text.len() && is_domain_char(text[from]) {
        lemma_domain_run(text, from + 1);
    }
}

/// A run of account-name bytes holds nothing else and stops at the first other byte.
pub proof fn lemma_user_run(text: Seq<u8>, from: int)
    requires
        0 <= from <= text.len(),
    ensures
        from <= user_run_end(text, from) <= text.len(),
        forall|j: int| from <= j < user_run_end(text, from) ==> is_user_char(#[trigger] text[j]),
        user_run_end(text, from) < text.len() ==> !is_user_char(text[user_run_end(text, from)]),
    decreases text.len() - from,
{
    if from < text.len() && is_user_char(text[from]) {
        lemma_user_run(text, from + 1);
    }
}

/// A stretch of host-name bytes that ends the text or is followed by
/// another byte is the run that starts where it starts.
pub proof fn lemma_domain_run_is(text: Seq<u8>, from: int, to: int)
    requires
        0 <= from <= to <= text.len(),
        forall|j: int| from <= j < to ==> is_domain_char(#[trigger] text[j]),
        to == text.len() || !is_domain_char(text[to]),
    ensures
        domain_run_end(text, from) == to,
    decreases to - from,
{
    if from < to {
        lemma_domain_run_is(text, from + 1, to);
    }
}

/// A stretch of account-name bytes that ends the text or is followed by
/// another byte is the run that starts where it starts.
pub proof fn lemma_user_run_is(text: Seq<u8>, from: int, to: int)
    requires
        0 <= from <= to <= text.len(),
        forall|j: int| from <= j < to ==> is_user_char(#[trigger] text[j]),
        to == text.len() || !is_user_char(text[to]),
    ensures
        user_run_end(text, from) == to,
    decreases to - from,
{
    if from < to {
        lemma_user_run_is(text, from + 1, to);
    }
}

/// Whether `c` may stand in a host name.
pub fn domain_char(c: u8) -> (r: bool)
    ensures
        r == is_domain_char(c),
{
    (48 <= c && c <= 57) || (65 <= c && c <= 90) || (97 <= c && c <= 122) || c == 46 || c == 45
}

/// Whether `c` may stand in an account name.
pub fn user_char(c: u8) -> (r: bool)
    ensures
        r == is_user_char(c),
{
    domain_char(c) || c == 95
}

/// Walks over the host-name bytes that start at `from`.
pub fn scan_domain(text: &[u8], from: usize) -> (end: usize)
    requires
        from <= text.len(),
    ensures
        end as int == domain_run_end(text@, from as int),
        from <= end <= text.len(),
{
    let mut i: usize = from;
    while i < text.len() && domain_char(text[i])
        invariant
            from <= i <= text.len(),
            domain_run_end(text@, from as int) == domain_run_end(text@, i as int),
        decreases text.len() - i,
    {
        i = i + 1;
    }
    i
}

/// Walks over the account-name bytes that start at `from`.
pub fn scan_user(text: &[u8], from: usize) -> (end: usize)
    requires
        from <= text.len(),
    ensures
        end as int == user_run_end(text@, from as int),
        from <= end <= text.len(),
{
    let mut i: usize = from;
    while i < text.len() && user_char(text[i])
        invariant
            from <= i <= text.len(),
            user_run_end(text@, from as int) == user_run_end(text@, i as int),
        decreases text.len() - i,
    {
        i = i + 1;
    }
    i
}

/// An ASCII capital as its small letter, any other byte as it is.
pub open spec fn spec_lower(c: u8) -> u8 {
    if 65 <= c <= 90 {
        (c + 32) as u8
    } else {
        c
    }
}

/// `text` with every ASCII capital replaced by its small letter.
pub open spec fn spec_lowercase(text: Seq<u8>) -> Seq<u8> {
    Seq::new(text.len(), |i: int| spec_lower(text[i]))
}

/// `text` with every ASCII capital replaced by its small letter.
pub fn lowercase(text: &[u8]) -> (out: Vec<u8>)
    ensures
        out@ == spec_lowercase(text@),
{
    let mut out: Vec<u8> = Vec::new();
    let mut i: usize = 0;
    while i < text.len()
        invariant
            i <= text.len(),
            out@.len() == i,
            forall|k: int| 0 <= k < i ==> out@[k] == spec_lower(text@[k]),
        decreases text.len() - i,
    {
        let c: u8 = text[i];
        if 65 <= c && c <= 90 {
            out.push(c + 32);
        } else {
            out.push(c);
        }
        i = i + 1;
    }
    assert(out@ =~= spec_lowercase(text@));
    out
}

/// Whether `text` ends with `pat`.
pub open spec fn spec_ends_with(text: Seq<u8>, pat: Seq<u8>) -> bool {
    pat.len() <= text.len() && spec_has_at(text, text.len() - pat.len(), pat)
}

/// Whether `text` ends with `pat`.
pub fn ends_with(text: &[u8], pat: &[u8]) -> (r: bool)
    ensures
        r == spec_ends_with(text@, pat@),
{
    if pat.len() > text.len() {
        return false;
    }
    has_at(text, text.len() - pat.len(), pat)
}

/// The bytes of `https://`.
pub open spec fn spec_https_prefix() -> Seq<u8> {
    seq![104u8, 116, 116, 112, 115, 58, 47, 47]
}

/// The bytes of `https://`.
pub fn https_prefix() -> (v: Vec<u8>)
    ensures
        v@ == spec_https_prefix(),
{
    let v: Vec<u8> = vec![104u8, 116, 116, 112, 115, 58, 47, 47];
    assert(v@ =~= spec_https_prefix());
    v
}

/// The bytes of `http://`.
pub open spec fn spec_http_prefix() -> Seq<u8> {
    seq![104u8, 116, 116, 112, 58, 47, 47]
}

/// The bytes of `http://`.
pub fn http_prefix() -> (v: Vec<u8>)
    ensures
        v@ == spec_http_prefix(),
{
    let v: Vec<u8> = vec![104u8, 116, 116, 112, 58, 47, 47];
    assert(v@ =~= spec_http_prefix());
    v
}

/// The bytes of `localhost`.
pub open spec fn spec_localhost() -> Seq<u8> {
    seq![108u8, 111, 99, 97, 108, 104, 111, 115, 116]
}

/// The bytes of `localhost`.
pub fn localhost() -> (v: Vec<u8>)
    ensures
        v@ == spec_localhost(),
{
    let v: Vec<u8> = vec![108u8, 111, 99, 97, 108, 104, 111, 115, 116];
    assert(v@ =~= spec_localhost());
    v
}

/// The bytes of `.localhost`.
pub open spec fn spec_dot_localhost() -> Seq<u8> {
    seq![46u8, 108, 111, 99, 97, 108, 104, 111, 115, 116]
}

/// The bytes of `.localhost`.
pub fn dot_localhost() -> (v: Vec<u8>)
    ensures
        v@ == spec_dot_localhost(),
{
    let v: Vec<u8> = vec![46u8, 108, 111, 99, 97, 108, 104, 111, 115, 116];
    assert(v@ =~= spec_dot_localhost());
    v
}

/// The bytes of `.local`.
pub open spec fn spec_dot_local() -> Seq<u8> {
    seq![46u8, 108, 111, 99, 97, 108]
}

/// The bytes of `.local`.
pub fn dot_local() -> (v: Vec<u8>)
    ensures
        v@ == spec_dot_local(),
{
    let v: Vec<u8> = vec![46u8, 108, 111, 99, 97, 108];
    assert(v@ =~= spec_dot_local());
    v
}

/// The bytes of `127.`.
pub open spec fn spec_loopback_prefix() -> Seq<u8> {
    seq![49u8, 50, 55, 46]
}

/// The bytes of `127.`.
pub fn loopback_prefix() -> (v: Vec<u8>)
    ensures
        v@ == spec_loopback_prefix(),
{
    let v: Vec<u8> = vec![49u8, 50, 55, 46];
    assert(v@ =~= spec_loopback_prefix());
    v
}

/// The bytes of `0.0.0.0`.
pub open spec fn spec_unspecified_address() -> Seq<u8> {
    seq![48u8, 46, 48, 46, 48, 46, 48]
}

/// The bytes of `0.0.0.0`.
pub fn unspecified_address() -> (v: Vec<u8>)
    ensures
        v@ == spec_unspecified_address(),
{
    let v: Vec<u8> = vec![48u8, 46, 48, 46, 48, 46, 48];
    assert(v@ =~= spec_unspecified_address());
    v
}

/// The bytes of `self`.
pub open spec fn spec_self_rel() -> Seq<u8> {
    seq![115u8, 101, 108, 102]
}

/// The bytes of `self`.
pub fn self_rel() -> (v: Vec<u8>)
    ensures
        v@ == spec_self_rel(),
{
    let v: Vec<u8> = vec![115u8, 101, 108, 102];
    assert(v@ =~= spec_self_rel());
    v
}

/// The bytes of `application/activity+json`.
pub open spec fn spec_activity_json() -> Seq<u8> {
    seq![97u8, 112, 112, 108, 105, 99, 97, 116, 105, 111, 110, 47, 97, 99, 116, 105, 118, 105, 116, 121, 43, 106, 115, 111, 110]
}

/// The bytes of `application/activity+json`.
pub fn activity_json() -> (v: Vec<u8>)
    ensures
        v@ == spec_activity_json(),
{
    let v: Vec<u8> = vec![97u8, 112, 112, 108, 105, 99, 97, 116, 105, 111, 110, 47, 97, 99, 116, 105, 118, 105, 116, 121, 43, 106, 115, 111, 110];
    assert(v@ =~= spec_activity_json());
    v
}

/// The bytes of `/.well-known/webfinger?resource=acct:`.
pub open spec fn spec_discovery_path() -> Seq<u8> {
    seq![47u8, 46, 119, 101, 108, 108, 45, 107, 110, 111, 119, 110, 47, 119, 101, 98, 102, 105, 110, 103, 101, 114, 63, 114, 101, 115, 111, 117, 114, 99, 101, 61, 97, 99, 99, 116, 58]
}

/// The bytes of `/.well-known/webfinger?resource=acct:`.
pub fn discovery_path() -> (v: Vec<u8>)
    ensures
        v@ == spec_discovery_path(),
{
    let v: Vec<u8> = vec![47u8, 46, 119, 101, 108, 108, 45, 107, 110, 111, 119, 110, 47, 119, 101, 98, 102, 105, 110, 103, 101, 114, 63, 114, 101, 115, 111, 117, 114, 99, 101, 61, 97, 99, 99, 116, 58];
    assert(v@ =~= spec_discovery_path());
    v
}

/// The bytes of `application/ld+json`.
pub open spec fn spec_linked_data_json() -> Seq<u8> {
    seq![97u8, 112, 112, 108, 105, 99, 97, 116, 105, 111, 110, 47, 108, 100, 43, 106, 115, 111, 110]
}

/// The bytes of `application/ld+json`.
pub fn linked_data_json() -> (v: Vec<u8>)
    ensures
        v@ == spec_linked_data_json(),
{
    let v: Vec<u8> = vec![97u8, 112, 112, 108, 105, 99, 97, 116, 105, 111, 110, 47, 108, 100, 43, 106, 115, 111, 110];
    assert(v@ =~= spec_linked_data_json());
    v
}

} // verus!
