//! Post content: finding the mentions and links in a text, the accounts to
//! resolve for it, and the post that results once they have been looked up.

use crate::bytes::{
    bytes_eq, copy_range, domain_run_end, has_at, http_prefix, https_prefix, is_user_char, lemma_domain_run,
    lemma_domain_run_is, lemma_user_run, lemma_user_run_is, scan_domain, scan_user, spec_has_at, spec_http_prefix, spec_https_prefix, user_run_end, AT,
};
use crate::webfinger::spec_split;
use vstd::prelude::*;

verus! {

/// A mention found in a text: `@` at `start`, the second `@` at `at`, and
/// the first byte after the domain at `end`.
#[derive(Clone, Copy, Debug, PartialEq, Eq, Structural)]
pub struct Token {
    pub start: usize,
    pub at: usize,
    pub end: usize,
}

/// What a mention stands for once resolution has been tried.
pub enum Target {
    /// The account was found; the address of its profile.
    Resolved(Vec<u8>),
    /// Resolution failed or did not finish in time: the mention stays plain text.
    Unresolved,
}

impl Target {
    /// The profile address, if resolved.
    pub open spec fn view(&self) -> Option<Seq<u8>> {
        match self {
            Target::Resolved(actor) => Some(actor@),
            Target::Unresolved => None,
        }
    }
}

/// A mention in a post, by its byte range `start..end` in the text.
pub struct MentionSpan {
    pub start: usize,
    pub end: usize,
    pub target: Target,
}

/// A link in a post, by its byte range `start..end` in the text.
#[derive(Clone, Copy, Debug, PartialEq, Eq, Structural)]
pub struct LinkSpan {
    pub start: usize,
    pub end: usize,
}

/// The result of one account's resolution: its profile address, or nothing
/// where it failed or timed out.
pub struct Resolution {
    pub identifier: Vec<u8>,
    pub actor: Option<Vec<u8>>,
}

impl Resolution {
    /// The profile address, if the resolution found one.
    pub open spec fn actor_view(&self) -> Option<Seq<u8>> {
        match self.actor {
            Some(a) => Some(a@),
            None => None,
        }
    }
}

/// A post after resolution.
pub struct ResolvedPost {
    pub text: Vec<u8>,
    pub mentions: Vec<MentionSpan>,
    pub links: Vec<LinkSpan>,
}

impl ResolvedPost {
    /// The mention spans lie within the text, in text order, and never overlap.
    pub open spec fn wf(&self) -> bool {
        &&& forall|k: int| 0 <= k < self.mentions@.len() ==> (#[trigger] self.mentions@[k]).start < self.mentions@[k].end <= self.text@.len()
        &&& forall|k: int, l: int| 0 <= k < l < self.mentions@.len() ==> (#[trigger] self.mentions@[k]).end <= (#[trigger] self.mentions@[l]).start
    }

    /// Checks the spans: within the text, in text order, never overlapping.
    pub fn spans_in_order(&self) -> (r: bool)
        ensures
            r == self.wf(),
    {
        let mut last: usize = 0;
        let mut k: usize = 0;
        while k < self.mentions.len()
            invariant
                k <= self.mentions@.len(),
                k > 0 ==> last == self.mentions@[k - 1].end,
                forall|a: int| 0 <= a < k ==> (#[trigger] self.mentions@[a]).start < self.mentions@[a].end <= self.text@.len(),
                forall|a: int, b: int| 0 <= a < b < k ==> (#[trigger] self.mentions@[a]).end <= (#[trigger] self.mentions@[b]).start,
            decreases self.mentions@.len() - k,
        {
            let m = &self.mentions[k];
            if !(m.start < m.end && m.end <= self.text.len()) {
                return false;
            }
            if k > 0 && m.start < last {
                assert(!(self.mentions@[k - 1].end <= self.mentions@[k as int].start));
                return false;
            }
            assert forall|a: int, b: int| 0 <= a < b < k + 1 implies (#[trigger] self.mentions@[a]).end <= (#[trigger] self.mentions@[b]).start by {
                if b == k && a < k - 1 {
                    assert(self.mentions@[a].end <= self.mentions@[k - 1].start);
                }
            }
            last = m.end;
            k = k + 1;
        }
        true
    }
}

/// A mention may start at `s` only at the start of the text or after a byte
/// that is neither part of an account name nor an `@`.
pub open spec fn mention_boundary(text: Seq<u8>, s: int) -> bool {
    s == 0 || !(is_user_char(text[s - 1]) || text[s - 1] == AT)
}

/// The mention that starts at `s`, as the positions of its second `@` and of
/// its end: `@`, a non-empty account name, `@`, a non-empty host name.
pub open spec fn spec_mention_at(text: Seq<u8>, s: int) -> Option<(int, int)> {
    if 0 <= s < text.len() && text[s] == AT && mention_boundary(text, s) {
        let at = user_run_end(text, s + 1);
        if s + 1 < at && at < text.len() && text[at] == AT && at + 1 < domain_run_end(text, at + 1) {
            Some((at, domain_run_end(text, at + 1)))
        } else {
            None
        }
    } else {
        None
    }
}

/// The account a mention names: `user@domain`, without the leading `@`.
pub open spec fn spec_mention_name(text: Seq<u8>, s: int) -> Seq<u8> {
    text.subrange(s + 1, spec_mention_at(text, s).unwrap().1)
}

/// Space, tab, line feed or carriage return.
pub open spec fn is_space(c: u8) -> bool {
    c == 32 || c == 9 || c == 10 || c == 13
}

/// End of the longest run of bytes other than white space that starts at `from`.
pub open spec fn word_end(text: Seq<u8>, from: int) -> int
    decreases text.len() - from,
{
    if 0 <= from < text.len() && !is_space(text[from]) {
        word_end(text, from + 1)
    } else {
        from
    }
}

/// The end of the link that starts at `s`: a word that begins, at the start
/// of the text or after white space, with `https://` or `http://`.
pub open spec fn spec_link_at(text: Seq<u8>, s: int) -> Option<int> {
    if 0 <= s < text.len() && (s == 0 || is_space(text[s - 1])) && (spec_has_at(text, s, spec_https_prefix())
        || spec_has_at(text, s, spec_http_prefix())) {
        Some(word_end(text, s))
    } else {
        None
    }
}

/// The mentions of a text, each exactly once, in text order and apart.
pub open spec fn is_mention_list(text: Seq<u8>, toks: Seq<Token>) -> bool {
    &&& forall|k: int| 0 <= k < toks.len() ==> spec_mention_at(text, (#[trigger] toks[k]).start as int) == Some((toks[k].at as int, toks[k].end as int))
    &&& forall|k: int, l: int| 0 <= k < l < toks.len() ==> (#[trigger] toks[k]).end <= (#[trigger] toks[l]).start
    &&& forall|s: int| 0 <= s < text.len() && (#[trigger] spec_mention_at(text, s)).is_some() ==> exists|k: int| 0 <= k < toks.len() && (#[trigger] toks[k]).start == s
}

/// The links of a text, each exactly once, in text order and apart.
pub open spec fn is_link_list(text: Seq<u8>, links: Seq<LinkSpan>) -> bool {
    &&& forall|k: int| 0 <= k < links.len() ==> spec_link_at(text, (#[trigger] links[k]).start as int) == Some(links[k].end as int)
    &&& forall|k: int, l: int| 0 <= k < l < links.len() ==> (#[trigger] links[k]).end <= (#[trigger] links[l]).start
    &&& forall|s: int| 0 <= s < text.len() && (#[trigger] spec_link_at(text, s)).is_some() ==> exists|k: int| 0 <= k < links.len() && (#[trigger] links[k]).start == s
}

/// The profile address recorded for `name` in `outcomes`, from position
/// `from` on: that of the first entry for `name`, nothing where there is none.
pub open spec fn spec_lookup_from(outcomes: Seq<Resolution>, name: Seq<u8>, from: int) -> Option<Seq<u8>>
    decreases outcomes.len() - from,
{
    if from < 0 || from >= outcomes.len() {
        None
    } else if outcomes[from].identifier@ == name {
        outcomes[from].actor_view()
    } else {
        spec_lookup_from(outcomes, name, from + 1)
    }
}

/// The profile address recorded for `name` in `outcomes`.
pub open spec fn spec_lookup(outcomes: Seq<Resolution>, name: Seq<u8>) -> Option<Seq<u8>> {
    spec_lookup_from(outcomes, name, 0)
}

/// The mentions of a post: those of its text, in order and apart, each
/// resolved exactly where `outcomes` records a profile for its account.
pub open spec fn is_resolution_of(text: Seq<u8>, outcomes: Seq<Resolution>, spans: Seq<MentionSpan>) -> bool {
    &&& forall|k: int| 0 <= k < spans.len() ==> {
        &&& (#[trigger] spans[k]).start < spans[k].end <= text.len()
        &&& spec_mention_at(text, spans[k].start as int).is_some()
        &&& spec_mention_at(text, spans[k].start as int).unwrap().1 == spans[k].end
        &&& spans[k].target@ == spec_lookup(outcomes, spec_mention_name(text, spans[k].start as int))
    }
    &&& forall|k: int, l: int| 0 <= k < l < spans.len() ==> (#[trigger] spans[k]).end <= (#[trigger] spans[l]).start
    &&& forall|s: int| 0 <= s < text.len() && (#[trigger] spec_mention_at(text, s)).is_some() ==> exists|k: int| 0 <= k < spans.len() && (#[trigger] spans[k]).start == s
}

proof fn lemma_word(text: Seq<u8>, from: int)
    requires
        0 <= from <= text.len(),
    ensures
        from <= word_end(text, from) <= text.len(),
        forall|j: int| from <= j < word_end(text, from) ==> !is_space(#[trigger] text[j]),
    decreases text.len() - from,
{
    if from < text.len() && !is_space(text[from]) {
        lemma_word(text, from + 1);
    }
}

fn scan_word(text: &[u8], from: usize) -> (end: usize)
    requires
        from <= text.len(),
    ensures
        end as int == word_end(text@, from as int),
        from <= end <= text.len(),
{
    let mut i: usize = from;
    while i < text.len() && !(text[i] == 32 || text[i] == 9 || text[i] == 10 || text[i] == 13)
        invariant
            from <= i <= text.len(),
            word_end(text@, from as int) == word_end(text@, i as int),
        decreases text.len() - i,
    {
        i = i + 1;
    }
    i
}

/// The mention that starts at `s`, if one does.
pub fn mention_at(text: &[u8], s: usize) -> (r: Option<Token>)
    ensures
        match r {
            Some(t) => t.start == s && spec_mention_at(text@, s as int) == Some((t.at as int, t.end as int)),
            None => spec_mention_at(text@, s as int).is_none(),
        },
{
    if s >= text.len() || text[s] != AT {
        return None;
    }
    if s > 0 {
        let before: u8 = text[s - 1];
        if crate::bytes::user_char(before) || before == AT {
            return None;
        }
    }
    let at: usize = scan_user(text, s + 1);
    if !(s + 1 < at && at < text.len() && text[at] == AT) {
        return None;
    }
    let end: usize = scan_domain(text, at + 1);
    if at + 1 < end {
        Some(Token { start: s, at, end })
    } else {
        None
    }
}

/// Finds every mention of `text`, in text order.
pub fn scan_mentions(text: &[u8]) -> (toks: Vec<Token>)
    ensures
        is_mention_list(text@, toks@),
{
    let mut toks: Vec<Token> = Vec::new();
    let mut pos: usize = 0;
    while pos < text.len()
        invariant
            pos <= text.len(),
            forall|k: int| 0 <= k < toks@.len() ==> spec_mention_at(text@, (#[trigger] toks@[k]).start as int) == Some((toks@[k].at as int, toks@[k].end as int)),
            forall|k: int| 0 <= k < toks@.len() ==> (#[trigger] toks@[k]).end <= pos,
            forall|k: int, l: int| 0 <= k < l < toks@.len() ==> (#[trigger] toks@[k]).end <= (#[trigger] toks@[l]).start,
            forall|s: int| 0 <= s < pos && (#[trigger] spec_mention_at(text@, s)).is_some() ==> exists|k: int| 0 <= k < toks@.len() && (#[trigger] toks@[k]).start == s,
        decreases text.len() - pos,
    {
        match mention_at(text, pos) {
            Some(t) => {
                let ghost before = toks@;
                toks.push(t);
                proof {
                    lemma_user_run(text@, pos + 1);
                    lemma_domain_run(text@, t.at + 1);
                    assert forall|s: int| 0 <= s < t.end && (#[trigger] spec_mention_at(text@, s)).is_some() implies exists|k: int| 0 <= k < toks@.len() && (#[trigger] toks@[k]).start == s by {
                        if s < pos {
                            let k = choose|k: int| 0 <= k < before.len() && (#[trigger] before[k]).start == s;
                            assert(toks@[k].start == s);
                        } else if s == pos {
                            assert(toks@[before.len() as int].start == s);
                        } else if s < t.at {
                            assert(is_user_char(text@[s]));
                        } else if s == t.at {
                            assert(is_user_char(text@[s - 1]));
                        } else {
                            assert(crate::bytes::is_domain_char(text@[s]));
                        }
                    }
                }
                pos = t.end;
            },
            None => {
                pos = pos + 1;
            },
        }
    }
    toks
}

/// The link that starts at `s`, if one does.
pub fn link_at(text: &[u8], s: usize) -> (r: Option<LinkSpan>)
    ensures
        match r {
            Some(l) => l.start == s && spec_link_at(text@, s as int) == Some(l.end as int),
            None => spec_link_at(text@, s as int).is_none(),
        },
{
    if s >= text.len() {
        return None;
    }
    if s > 0 {
        let before: u8 = text[s - 1];
        if !(before == 32 || before == 9 || before == 10 || before == 13) {
            return None;
        }
    }
    if has_at(text, s, https_prefix().as_slice()) || has_at(text, s, http_prefix().as_slice()) {
        Some(LinkSpan { start: s, end: scan_word(text, s) })
    } else {
        None
    }
}

/// Finds every link of `text`, in text order.
pub fn scan_links(text: &[u8]) -> (links: Vec<LinkSpan>)
    ensures
        is_link_list(text@, links@),
{
    let mut links: Vec<LinkSpan> = Vec::new();
    let mut pos: usize = 0;
    while pos < text.len()
        invariant
            pos <= text.len(),
            forall|k: int| 0 <= k < links@.len() ==> spec_link_at(text@, (#[trigger] links@[k]).start as int) == Some(links@[k].end as int),
            forall|k: int| 0 <= k < links@.len() ==> (#[trigger] links@[k]).end <= pos,
            forall|k: int, l: int| 0 <= k < l < links@.len() ==> (#[trigger] links@[k]).end <= (#[trigger] links@[l]).start,
            forall|s: int| 0 <= s < pos && (#[trigger] spec_link_at(text@, s)).is_some() ==> exists|k: int| 0 <= k < links@.len() && (#[trigger] links@[k]).start == s,
        decreases text.len() - pos,
    {
        match link_at(text, pos) {
            Some(l) => {
                let ghost before = links@;
                links.push(l);
                proof {
                    lemma_word(text@, pos as int);
                    assert(!is_space(text@[pos as int])) by {
                        if spec_has_at(text@, pos as int, spec_https_prefix()) {
                            assert(text@.subrange(pos as int, pos + 8)[0] == spec_https_prefix()[0]);
                        } else {
                            assert(text@.subrange(pos as int, pos + 7)[0] == spec_http_prefix()[0]);
                        }
                    }
                    lemma_word(text@, pos + 1);
                    assert(l.end > pos);
                    assert forall|s: int| 0 <= s < l.end && (#[trigger] spec_link_at(text@, s)).is_some() implies exists|k: int| 0 <= k < links@.len() && (#[trigger] links@[k]).start == s by {
                        if s < pos {
                            let k = choose|k: int| 0 <= k < before.len() && (#[trigger] before[k]).start == s;
                            assert(links@[k].start == s);
                        } else if s == pos {
                            assert(links@[before.len() as int].start == s);
                        } else {
                            assert(!is_space(text@[s - 1]));
                        }
                    }
                }
                pos = l.end;
            },
            None => {
                pos = pos + 1;
            },
        }
    }
    links
}

/// What `outcomes` records for the account `name`.
pub fn lookup(outcomes: &Vec<Resolution>, name: &[u8]) -> (r: Target)
    ensures
        r@ == spec_lookup(outcomes@, name@),
{
    let mut i: usize = 0;
    while i < outcomes.len()
        invariant
            i <= outcomes.len(),
            spec_lookup(outcomes@, name@) == spec_lookup_from(outcomes@, name@, i as int),
        decreases outcomes.len() - i,
    {
        if bytes_eq(outcomes[i].identifier.as_slice(), name) {
            return match &outcomes[i].actor {
                Some(a) => {
                    assert(a@.subrange(0, a@.len() as int) =~= a@);
                    Target::Resolved(copy_range(a.as_slice(), 0, a.len()))
                },
                None => Target::Unresolved,
            };
        }
        i = i + 1;
    }
    Target::Unresolved
}

/// Whether `names` lists `name`.
pub open spec fn lists(names: Seq<Vec<u8>>, name: Seq<u8>) -> bool {
    exists|i: int| 0 <= i < names.len() && (#[trigger] names[i])@ == name
}

/// Whether some mention of `text` names the account `name`.
pub open spec fn mentions(text: Seq<u8>, name: Seq<u8>) -> bool {
    exists|s: int| 0 <= s < text.len() && (#[trigger] spec_mention_at(text, s)).is_some() && spec_mention_name(text, s) == name
}

spec fn among(text: Seq<u8>, toks: Seq<Token>, upto: int, name: Seq<u8>) -> bool {
    exists|k: int| 0 <= k < upto && spec_mention_name(text, (#[trigger] toks[k]).start as int) == name
}

fn holds(names: &Vec<Vec<u8>>, name: &[u8]) -> (r: bool)
    ensures
        r == lists(names@, name@),
{
    let mut i: usize = 0;
    while i < names.len()
        invariant
            i <= names.len(),
            forall|k: int| 0 <= k < i ==> (#[trigger] names@[k])@ != name@,
        decreases names.len() - i,
    {
        if bytes_eq(names[i].as_slice(), name) {
            return true;
        }
        i = i + 1;
    }
    false
}

proof fn lemma_lists_push(names: Seq<Vec<u8>>, extra: Vec<u8>, name: Seq<u8>)
    requires
        lists(names, name) || extra@ == name,
    ensures
        lists(names.push(extra), name),
{
    let grown = names.push(extra);
    if lists(names, name) {
        let i = choose|i: int| 0 <= i < names.len() && (#[trigger] names[i])@ == name;
        assert(grown[i]@ == name);
    } else {
        assert(grown[names.len() as int]@ == name);
    }
}

proof fn lemma_among_more(text: Seq<u8>, toks: Seq<Token>, upto: int, name: Seq<u8>)
    requires
        among(text, toks, upto, name) || (0 <= upto && spec_mention_name(text, toks[upto].start as int) == name),
    ensures
        among(text, toks, upto + 1, name),
{
    if among(text, toks, upto, name) {
        let k = choose|k: int| 0 <= k < upto && spec_mention_name(text, (#[trigger] toks[k]).start as int) == name;
        assert(0 <= k < upto + 1 && spec_mention_name(text, toks[k].start as int) == name);
    } else {
        assert(0 <= upto < upto + 1 && spec_mention_name(text, toks[upto].start as int) == name);
    }
}

/// The accounts that `text` mentions, each once however often it is
/// mentioned: the resolutions to attempt for the post.
pub fn mentioned_accounts(text: &[u8]) -> (names: Vec<Vec<u8>>)
    ensures
        forall|i: int, j: int| 0 <= i < j < names@.len() ==> (#[trigger] names@[i])@ != (#[trigger] names@[j])@,
        forall|s: int| 0 <= s < text@.len() && (#[trigger] spec_mention_at(text@, s)).is_some() ==> lists(names@, spec_mention_name(text@, s)),
        forall|i: int| 0 <= i < names@.len() ==> mentions(text@, (#[trigger] names@[i])@),
{
    let toks: Vec<Token> = scan_mentions(text);
    let mut names: Vec<Vec<u8>> = Vec::new();
    let mut t: usize = 0;
    while t < toks.len()
        invariant
            t <= toks.len(),
            forall|k: int| 0 <= k < toks@.len() ==> spec_mention_at(text@, (#[trigger] toks@[k]).start as int) == Some((toks@[k].at as int, toks@[k].end as int)),
            forall|i: int, j: int| 0 <= i < j < names@.len() ==> (#[trigger] names@[i])@ != (#[trigger] names@[j])@,
            forall|k: int| 0 <= k < t ==> lists(names@, spec_mention_name(text@, (#[trigger] toks@[k]).start as int)),
            forall|i: int| 0 <= i < names@.len() ==> among(text@, toks@, t as int, (#[trigger] names@[i])@),
        decreases toks.len() - t,
    {
        let tok: Token = toks[t];
        proof {
            lemma_domain_run(text@, tok.at + 1);
        }
        let name: Vec<u8> = copy_range(text, tok.start + 1, tok.end);
        assert(name@ == spec_mention_name(text@, toks@[t as int].start as int));
        let ghost before = names@;
        if !holds(&names, name.as_slice()) {
            names.push(name);
            proof {
                assert forall|i: int, j: int| 0 <= i < j < names@.len() implies (#[trigger] names@[i])@ != (#[trigger] names@[j])@ by {
                    if j == before.len() {
                        assert(before[i]@ != name@);
                    } else {
                        assert(before[i]@ != before[j]@);
                    }
                }
                assert forall|k: int| 0 <= k < t + 1 implies lists(names@, spec_mention_name(text@, (#[trigger] toks@[k]).start as int)) by {
                    lemma_lists_push(before, name, spec_mention_name(text@, toks@[k].start as int));
                }
                assert forall|i: int| 0 <= i < names@.len() implies among(text@, toks@, t + 1, (#[trigger] names@[i])@) by {
                    if i < before.len() {
                        assert(names@[i] == before[i]);
                    }
                    lemma_among_more(text@, toks@, t as int, names@[i]@);
                }
            }
        } else {
            proof {
                assert forall|i: int| 0 <= i < names@.len() implies among(text@, toks@, t + 1, (#[trigger] names@[i])@) by {
                    lemma_among_more(text@, toks@, t as int, names@[i]@);
                }
            }
        }
        t = t + 1;
    }
    proof {
        assert forall|s: int| 0 <= s < text@.len() && (#[trigger] spec_mention_at(text@, s)).is_some() implies lists(names@, spec_mention_name(text@, s)) by {
            let k = choose|k: int| 0 <= k < toks@.len() && (#[trigger] toks@[k]).start == s;
            assert(lists(names@, spec_mention_name(text@, toks@[k].start as int)));
        }
        assert forall|i: int| 0 <= i < names@.len() implies mentions(text@, (#[trigger] names@[i])@) by {
            let name = names@[i]@;
            assert(among(text@, toks@, t as int, name));
            let k = choose|k: int| 0 <= k < t && spec_mention_name(text@, (#[trigger] toks@[k]).start as int) == name;
            let s = toks@[k].start as int;
            assert(spec_mention_at(text@, s).is_some());
            lemma_user_run(text@, s + 1);
            assert(0 <= s < text@.len());
        }
    }
    names
}

/// Builds the post from its text and the resolutions that finished. A
/// mention whose account has no profile on record stays in the list as
/// unresolved; nothing makes the call fail.
pub fn resolve_post(text: Vec<u8>, outcomes: &Vec<Resolution>) -> (post: ResolvedPost)
    ensures
        post.text@ == text@,
        post.wf(),
        is_resolution_of(text@, outcomes@, post.mentions@),
        is_link_list(text@, post.links@),
{
    let toks: Vec<Token> = scan_mentions(text.as_slice());
    let links: Vec<LinkSpan> = scan_links(text.as_slice());
    let mut spans: Vec<MentionSpan> = Vec::new();
    let mut t: usize = 0;
    while t < toks.len()
        invariant
            t <= toks.len(),
            spans@.len() == t,
            is_mention_list(text@, toks@),
            forall|k: int| 0 <= k < t ==> {
                &&& (#[trigger] spans@[k]).start == toks@[k].start
                &&& spans@[k].end == toks@[k].end
                &&& spans@[k].start < spans@[k].end <= text@.len()
                &&& spans@[k].target@ == spec_lookup(outcomes@, spec_mention_name(text@, toks@[k].start as int))
            },
        decreases toks.len() - t,
    {
        let tok: Token = toks[t];
        proof {
            lemma_domain_run(text@, tok.at + 1);
            lemma_user_run(text@, tok.start + 1);
        }
        let name: Vec<u8> = copy_range(text.as_slice(), tok.start + 1, tok.end);
        let target: Target = lookup(outcomes, name.as_slice());
        spans.push(MentionSpan { start: tok.start, end: tok.end, target });
        t = t + 1;
    }
    proof {
        assert forall|s: int| 0 <= s < text@.len() && (#[trigger] spec_mention_at(text@, s)).is_some() implies exists|k: int| 0 <= k < spans@.len() && (#[trigger] spans@[k]).start == s by {
            let k = choose|k: int| 0 <= k < toks@.len() && (#[trigger] toks@[k]).start == s;
            assert(spans@[k].start == s);
        }
        assert forall|k: int, l: int| 0 <= k < l < spans@.len() implies (#[trigger] spans@[k]).end <= (#[trigger] spans@[l]).start by {
            assert(toks@[k].end <= toks@[l].start);
        }
    }
    ResolvedPost { text, mentions: spans, links }
}

/// How many further resolutions may start now: as many as are waiting, but
/// never more than `max_parallel` under way at once.
pub fn next_batch(waiting: usize, under_way: usize, max_parallel: usize) -> (n: usize)
    ensures
        n as int == if under_way >= max_parallel {
            0
        } else if waiting <= max_parallel - under_way {
            waiting as int
        } else {
            max_parallel - under_way
        },
        n <= waiting,
        under_way <= max_parallel ==> under_way + n <= max_parallel,
{
    if under_way >= max_parallel {
        0
    } else if waiting <= max_parallel - under_way {
        waiting
    } else {
        max_parallel - under_way
    }
}

/// Whether work started at `started` has used up `timeout` at `now`.
pub fn deadline_passed(started: u64, now: u64, timeout: u64) -> (r: bool)
    ensures
        r == (started + timeout <= now),
{
    now >= started && now - started >= timeout
}

/// The spans of a resolved post lie in text order and never overlap.
pub proof fn lemma_spans_ordered(text: Seq<u8>, outcomes: Seq<Resolution>, spans: Seq<MentionSpan>, k: int, l: int)
    requires
        is_resolution_of(text, outcomes, spans),
        0 <= k < l < spans.len(),
    ensures
        spans[k].start < spans[k].end,
        spans[k].end <= spans[l].start,
        spans[l].end <= text.len(),
{
}

/// A mention whose account has no outcome on record is kept as unresolved.
pub proof fn lemma_missing_outcome_is_unresolved(outcomes: Seq<Resolution>, name: Seq<u8>, from: int)
    requires
        0 <= from,
        forall|i: int| from <= i < outcomes.len() ==> (#[trigger] outcomes[i]).identifier@ != name || outcomes[i].actor.is_none(),
    ensures
        spec_lookup_from(outcomes, name, from).is_none(),
    decreases outcomes.len() - from,
{
    if from < outcomes.len() {
        if outcomes[from].identifier@ != name {
            lemma_missing_outcome_is_unresolved(outcomes, name, from + 1);
        }
    }
}

/// What a mention names is a well-formed `user@domain`, split at the
/// mention's second `@`: every mention found can be handed to discovery.
pub proof fn lemma_mention_names_account(text: Seq<u8>, s: int)
    requires
        spec_mention_at(text, s).is_some(),
    ensures
        spec_split(spec_mention_name(text, s)) == Some(spec_mention_at(text, s).unwrap().0 - s - 1),
{
    let (at, end) = spec_mention_at(text, s).unwrap();
    let name = spec_mention_name(text, s);
    lemma_user_run(text, s + 1);
    lemma_domain_run(text, at + 1);
    assert(name.len() == end - s - 1);
    assert forall|j: int| 0 <= j < at - s - 1 implies is_user_char(#[trigger] name[j]) by {
        assert(name[j] == text[j + s + 1]);
    }
    assert(name[at - s - 1] == text[at]);
    lemma_user_run_is(name, 0, at - s - 1);
    assert forall|j: int| at - s <= j < name.len() implies crate::bytes::is_domain_char(#[trigger] name[j]) by {
        assert(name[j] == text[j + s + 1]);
    }
    lemma_domain_run_is(name, at - s, name.len() as int);
}

} // verus!
