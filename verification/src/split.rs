//! Domain-list split routing: queries for listed domains (and names below
//! them) go to a dedicated forwarder; all others pass to the next handler.
//!
//! Domain lists are plain text: one domain per line, `#` starts a comment,
//! surrounding whitespace and leading dots are ignored, and lines that are
//! no domain name are skipped.
use std::collections::HashMap;
use vstd::prelude::*;
use vstd::string::*;

use crate::dns::{unimplemented_nsec, unimplemented_nsec3, AxfrPolicy, ForwardConfig, LookupControlFlow, LookupError, ZoneType};
use crate::domain::{
    char_parts, chars_of, drop_while, drop_while_end, lemma_drop_while, lemma_drop_while_end,
    dotted, is_ascii_alnum, labels_hash, law_alphanumeric_names_parse, lemma_dotted, lower_labels,
    parse_name_chars, parse_name_spec, split_chars, split_on, LowerName,
    Name,
};

verus! {

broadcast use vstd::std_specs::hash::group_hash_axioms;

/// A remote or local blocklist source.
#[derive(Clone, Debug)]
pub struct BlocklistSource {
    /// Source URL or local file path relative to zone directory.
    pub source: String,
    /// Refresh interval of this source in seconds, as configured. The
    /// handler reloads all its sources together, every
    /// `SplitConfig::blocklist_refresh` seconds (see
    /// `SplitZoneHandler::refresh_period`), and does not read this field.
    pub refresh: u64,
    /// Allow fetch failures without failing startup.
    pub allow_failure: bool,
}

/// Fetch failures of a source are allowed by default.
pub fn default_allow_failure() -> (r: bool)
    ensures
        r,
{
    true
}

/// Split routing configuration.
#[derive(Clone, Debug)]
pub struct SplitConfig {
    /// Domain list sources (files or HTTP URLs).
    pub blocklist_source: Vec<BlocklistSource>,
    /// Forwarder used when query name matches the domain list.
    pub match_forward: ForwardConfig,
    /// Refresh interval for all sources (seconds).
    pub blocklist_refresh: u64,
}

/// Default refresh interval: 3600 seconds.
pub fn default_refresh() -> (r: u64)
    ensures
        r == 3600,
{
    3600
}

/// Unicode white space, as `char::is_whitespace` defines it.
pub open spec fn is_whitespace(c: char) -> bool {
    ('\t' <= c <= '\r') || c == ' ' || c == '\u{85}' || c == '\u{A0}' || c == '\u{1680}' || (
    '\u{2000}' <= c <= '\u{200A}') || c == '\u{2028}' || c == '\u{2029}' || c == '\u{202F}' || c
        == '\u{205F}' || c == '\u{3000}'
}

fn is_whitespace_exec(c: char) -> (r: bool)
    ensures
        r == is_whitespace(c),
{
    ('\t' <= c && c <= '\r') || c == ' ' || c == '\u{85}' || c == '\u{A0}' || c == '\u{1680}' || (
    '\u{2000}' <= c && c <= '\u{200A}') || c == '\u{2028}' || c == '\u{2029}' || c == '\u{202F}'
        || c == '\u{205F}' || c == '\u{3000}'
}

/// White space as a predicate.
pub open spec fn whitespace_pred() -> spec_fn(char) -> bool {
    |c: char| is_whitespace(c)
}

/// The dot as a predicate.
pub open spec fn dot_pred() -> spec_fn(char) -> bool {
    |c: char| c == '.'
}

/// The part of `s` before the first `c`.
pub open spec fn before_char(s: Seq<char>, c: char) -> Seq<char>
    decreases s.len(),
{
    if s.len() == 0 {
        s
    } else if s[0] == c {
        Seq::empty()
    } else {
        seq![s[0]] + before_char(s.drop_first(), c)
    }
}

proof fn lemma_before_char(s: Seq<char>, c: char, i: int)
    requires
        0 <= i <= s.len(),
        forall|j: int| 0 <= j < i ==> s[j] != c,
        i == s.len() || s[i] == c,
    ensures
        before_char(s, c) == s.take(i),
    decreases i,
{
    if i == 0 {
        assert(s.take(0) =~= Seq::<char>::empty());
    } else {
        lemma_before_char(s.drop_first(), c, i - 1);
        assert(seq![s[0]] + s.drop_first().take(i - 1) =~= s.take(i));
    }
}

/// The domain that a line of a domain list names, lower-cased: the text
/// before `#`, without surrounding white space and leading dots, if that is
/// a domain name; nothing for blank and comment lines.
pub open spec fn list_line_entry(line: Seq<char>) -> Option<Seq<Seq<u8>>> {
    let t = drop_while_end(drop_while(before_char(line, '#'), whitespace_pred()), whitespace_pred());
    if t.len() == 0 {
        None
    } else {
        match parse_name_spec(drop_while(t, dot_pred())) {
            Some((labels, _)) => Some(lower_labels(labels)),
            None => None,
        }
    }
}

/// A list line made of blanks (spaces or tabs), leading dots, a name of
/// ASCII letters and digits, more blanks, and optionally a `#` comment with
/// any text, names that domain in lower case; a line that is only blanks and
/// a comment names nothing.
pub proof fn law_list_line(
    pre: Seq<char>,
    dots: Seq<char>,
    labels: Seq<Seq<char>>,
    post: Seq<char>,
    comment: Seq<char>,
)
    requires
        forall|i: int| 0 <= i < pre.len() ==> (#[trigger] pre[i] == ' ' || pre[i] == '\t'),
        forall|i: int| 0 <= i < post.len() ==> (#[trigger] post[i] == ' ' || post[i] == '\t'),
        forall|i: int| 0 <= i < dots.len() ==> #[trigger] dots[i] == '.',
        labels.len() >= 1,
        forall|k: int| 0 <= k < labels.len() ==> 1 <= (#[trigger] labels[k]).len() <= 63,
        forall|k: int, i: int|
            0 <= k < labels.len() && 0 <= i < labels[k].len() ==> is_ascii_alnum(#[trigger] labels[k][i]),
        dotted(labels).len() <= 253,
    ensures
        list_line_entry(pre + dots + dotted(labels) + post + seq!['#'] + comment) == Some(
            lower_labels(labels.map_values(|l: Seq<char>| l.map_values(|c: char| c as u8))),
        ),
        list_line_entry(pre + dots + dotted(labels) + post) == Some(
            lower_labels(labels.map_values(|l: Seq<char>| l.map_values(|c: char| c as u8))),
        ),
        list_line_entry(pre + seq!['#'] + comment) is None,
{
    let d = dotted(labels);
    lemma_dotted(labels);
    law_alphanumeric_names_parse(labels);
    let body = pre + dots + d + post;
    let n1 = pre.len() as int;
    let n2 = n1 + dots.len();
    let n3 = n2 + d.len();
    assert forall|i: int| 0 <= i < body.len() implies body[i] != '#' by {
        if i < n1 {
            assert(body[i] == pre[i]);
        } else if i < n2 {
            assert(body[i] == dots[i - n1]);
        } else if i < n3 {
            assert(body[i] == d[i - n2]);
        } else {
            assert(body[i] == post[i - n3]);
        }
    }
    // the part before the comment is the whole body, with or without a comment
    let line1 = body + seq!['#'] + comment;
    assert forall|j: int| 0 <= j < body.len() implies line1[j] != '#' by {
        assert(line1[j] == body[j]);
    }
    lemma_before_char(line1, '#', body.len() as int);
    assert(line1.take(body.len() as int) =~= body);
    lemma_before_char(body, '#', body.len() as int);
    assert(body.take(body.len() as int) =~= body);
    // leading blanks go
    assert forall|j: int| 0 <= j < n1 implies (whitespace_pred())(#[trigger] body[j]) by {
        assert(body[j] == pre[j]);
    }
    if dots.len() > 0 {
        assert(body[n1] == dots[0]);
    } else {
        assert(body[n1] == d[0]);
    }
    lemma_drop_while(body, whitespace_pred(), n1);
    let front = body.skip(n1);
    assert(front =~= dots + d + post);
    // trailing blanks go
    let m = (dots.len() + d.len()) as int;
    assert forall|j: int| m <= j < front.len() implies (whitespace_pred())(#[trigger] front[j]) by {
        assert(front[j] == post[j - m]);
    }
    assert(front[m - 1] == d[d.len() - 1]);
    lemma_drop_while_end(front, whitespace_pred(), m);
    let t = front.take(m);
    assert(t =~= dots + d);
    // leading dots go
    assert forall|j: int| 0 <= j < dots.len() implies (dot_pred())(#[trigger] t[j]) by {
        assert(t[j] == dots[j]);
    }
    assert(t[dots.len() as int] == d[0]);
    lemma_drop_while(t, dot_pred(), dots.len() as int);
    assert(t.skip(dots.len() as int) =~= d);
    assert(t.len() > 0);
    // a blank line with a comment
    let line3 = pre + seq!['#'] + comment;
    assert forall|j: int| 0 <= j < pre.len() implies line3[j] != '#' by {
        assert(line3[j] == pre[j]);
    }
    lemma_before_char(line3, '#', pre.len() as int);
    assert(line3.take(pre.len() as int) =~= pre);
    assert forall|j: int| 0 <= j < pre.len() implies (whitespace_pred())(#[trigger] pre[j]) by {}
    lemma_drop_while(pre, whitespace_pred(), pre.len() as int);
    assert(pre.skip(pre.len() as int) =~= Seq::<char>::empty());
}

/// The domains that the lines name, in order.
pub open spec fn entries_of_lines(lines: Seq<Seq<char>>) -> Seq<Seq<Seq<u8>>>
    decreases lines.len(),
{
    if lines.len() == 0 {
        Seq::empty()
    } else {
        entries_of_lines(lines.drop_last()) + match list_line_entry(lines.last()) {
            Some(n) => seq![n],
            None => Seq::<Seq<Seq<u8>>>::empty(),
        }
    }
}

/// The domains that a domain list names, in order; lines end at `\n`.
pub open spec fn list_entries(content: Seq<char>) -> Seq<Seq<Seq<u8>>> {
    entries_of_lines(split_on(content, '\n'))
}

/// The domain that a line of a domain list names (see `list_line_entry`).
pub fn parse_list_line(line: &Vec<char>) -> (r: Option<LowerName>)
    ensures
        match list_line_entry(line@) {
            Some(n) => r matches Some(name) && name@ == n,
            None => r is None,
        },
{
    let len: usize = line.len();
    let mut i: usize = 0;
    while i < len && line[i] != '#'
        invariant
            len == line@.len(),
            i <= len,
            forall|j: int| 0 <= j < i ==> line@[j] != '#',
        decreases len - i,
    {
        i = i + 1;
    }
    proof {
        lemma_before_char(line@, '#', i as int);
    }
    let ghost cut = line@.take(i as int);
    let mut a: usize = 0;
    while a < i && is_whitespace_exec(line[a])
        invariant
            i <= len,
            len == line@.len(),
            a <= i,
            forall|j: int| 0 <= j < a ==> is_whitespace(#[trigger] line@[j]),
        decreases i - a,
    {
        a = a + 1;
    }
    proof {
        assert forall|j: int| 0 <= j < a implies (whitespace_pred())(#[trigger] cut[j]) by {
            assert(cut[j] == line@[j]);
        }
        lemma_drop_while(cut, whitespace_pred(), a as int);
    }
    let ghost front = cut.skip(a as int);
    let mut b: usize = i;
    while b > a && is_whitespace_exec(line[b - 1])
        invariant
            i <= len,
            len == line@.len(),
            a <= b <= i,
            forall|j: int| b <= j < i ==> is_whitespace(#[trigger] line@[j]),
        decreases b - a,
    {
        b = b - 1;
    }
    proof {
        assert forall|j: int| (b - a) <= j < front.len() implies (whitespace_pred())(
            #[trigger] front[j],
        ) by {
            assert(front[j] == line@[a + j]);
        }
        if b > a {
            assert(front[b - a - 1] == line@[b - 1]);
        }
        lemma_drop_while_end(front, whitespace_pred(), (b - a) as int);
    }
    let ghost trimmed = front.take((b - a) as int);
    assert(trimmed =~= line@.subrange(a as int, b as int));
    if a == b {
        return None;
    }
    let mut d: usize = a;
    while d < b && line[d] == '.'
        invariant
            b <= len,
            len == line@.len(),
            a <= d <= b,
            forall|j: int| a <= j < d ==> line@[j] == '.',
        decreases b - d,
    {
        d = d + 1;
    }
    proof {
        assert forall|j: int| 0 <= j < d - a implies (dot_pred())(#[trigger] trimmed[j]) by {
            assert(trimmed[j] == line@[a + j]);
        }
        if d < b {
            assert(trimmed[d - a] == line@[d as int]);
        }
        lemma_drop_while(trimmed, dot_pred(), (d - a) as int);
    }
    let mut body: Vec<char> = Vec::new();
    let mut k: usize = d;
    while k < b
        invariant
            b <= len,
            len == line@.len(),
            d <= k <= b,
            body@ == line@.subrange(d as int, k as int),
        decreases b - k,
    {
        body.push(line[k]);
        proof {
            assert(line@.subrange(d as int, k + 1) =~= line@.subrange(d as int, k as int).push(
                line@[k as int],
            ));
        }
        k = k + 1;
    }
    assert(body@ =~= trimmed.skip((d - a) as int));
    match parse_name_chars(&body) {
        Ok(mut name) => {
            name.set_fqdn(true);
            Some(LowerName::new(&name))
        },
        Err(_) => None,
    }
}

/// A set of domains, compared in lower case. The names are kept in order of
/// insertion, with an index from each name's hash to the positions of the
/// names with that hash, so that a lookup reads only one bucket.
pub struct DomainSet {
    names: Vec<LowerName>,
    index: HashMap<u64, Vec<usize>>,
}

impl View for DomainSet {
    type V = Set<Seq<Seq<u8>>>;

    closed spec fn view(&self) -> Set<Seq<Seq<u8>>> {
        Set::new(|n: Seq<Seq<u8>>| exists|i: int| 0 <= i < self.names@.len() && #[trigger] self.names@[i]@ == n)
    }
}

impl DomainSet {
    /// The index is sound (each position in a bucket holds a name with that
    /// bucket's hash) and complete (each name's position is in the bucket of
    /// its hash).
    pub closed spec fn wf(&self) -> bool {
        &&& forall|h: u64, j: int|
            #![trigger self.index@[h]@[j]]
            self.index@.contains_key(h) && 0 <= j < self.index@[h]@.len() ==> {
                &&& self.index@[h]@[j] < self.names@.len()
                &&& labels_hash(self.names@[self.index@[h]@[j] as int]@) == h
            }
        &&& forall|i: int|
            #![trigger self.names@[i]]
            0 <= i < self.names@.len() ==> {
                &&& self.index@.contains_key(labels_hash(self.names@[i]@) as u64)
                &&& self.index@[labels_hash(self.names@[i]@) as u64]@.contains(i as usize)
            }
    }

    /// The empty set.
    pub fn new() -> (r: DomainSet)
        ensures
            r.wf(),
            r@ == Set::<Seq<Seq<u8>>>::empty(),
    {
        let r = DomainSet { names: Vec::new(), index: HashMap::new() };
        assert(r@ =~= Set::<Seq<Seq<u8>>>::empty());
        r
    }

    /// Adds a domain.
    pub fn insert(&mut self, name: LowerName)
        requires
            old(self).wf(),
        ensures
            final(self).wf(),
            final(self)@ == old(self)@.insert(name@),
    {
        let ghost before = self.names@;
        let ghost old_index = self.index@;
        let ghost n = name@;
        let h: u64 = name.suffix_hash(0);
        assert(name@.skip(0) =~= name@);
        let i: usize = self.names.len();
        self.names.push(name);
        let mut bucket: Vec<usize> = match self.index.remove(&h) {
            Some(b) => b,
            None => Vec::new(),
        };
        let ghost old_bucket = bucket@;
        assert(self.index@ == old_index.remove(h));
        assert(old_index.contains_key(h) ==> old_bucket == old_index[h]@);
        assert(!old_index.contains_key(h) ==> old_bucket == Seq::<usize>::empty());
        bucket.push(i);
        let ghost new_bucket = bucket;
        self.index.insert(h, bucket);
        proof {
            assert(new_bucket@ == old_bucket.push(i));
            assert(self.index@ == old_index.insert(h, new_bucket));
            assert(self.names@ == before.push(self.names@[i as int]));
            assert forall|h2: u64, j: int|
                #![trigger self.index@[h2]@[j]]
                self.index@.contains_key(h2) && 0 <= j < self.index@[h2]@.len() implies {
                    &&& self.index@[h2]@[j] < self.names@.len()
                    &&& labels_hash(self.names@[self.index@[h2]@[j] as int]@) == h2
                } by {
                if h2 == h {
                    if j < old_bucket.len() {
                        assert(self.index@[h2]@[j] == old_index[h]@[j]);
                    }
                } else {
                    assert(self.index@[h2] == old_index[h2]);
                }
            }
            assert forall|k: int|
                #![trigger self.names@[k]]
                0 <= k < self.names@.len() implies {
                    &&& self.index@.contains_key(labels_hash(self.names@[k]@) as u64)
                    &&& self.index@[labels_hash(self.names@[k]@) as u64]@.contains(k as usize)
                } by {
                let hk = labels_hash(self.names@[k]@) as u64;
                if k < i {
                    assert(self.names@[k] == before[k]);
                    assert(old_index.contains_key(hk) && old_index[hk]@.contains(k as usize));
                    if hk == h {
                        let jj = choose|jj: int| 0 <= jj < old_bucket.len() && old_bucket[jj] == k as usize;
                        assert(self.index@[hk]@[jj] == k as usize);
                    }
                } else {
                    assert(self.index@[h]@[old_bucket.len() as int] == i);
                }
            }
            assert forall|m: Seq<Seq<u8>>| self@.contains(m) <==> old(self)@.insert(n).contains(m) by {
                if self@.contains(m) {
                    let k = choose|k: int| 0 <= k < self.names@.len() && #[trigger] self.names@[k]@ == m;
                    if k < before.len() {
                        assert(before[k] == self.names@[k]);
                    }
                }
                if old(self)@.contains(m) {
                    let k = choose|k: int| 0 <= k < before.len() && #[trigger] before[k]@ == m;
                    assert(self.names@[k] == before[k]);
                }
                if m == n {
                    assert(self.names@[i as int]@ == n);
                }
            }
            assert(self@ =~= old(self)@.insert(n));
        }
    }

    /// Adds every domain that a domain list names.
    pub fn add_list(&mut self, content: &str)
        requires
            old(self).wf(),
        ensures
            final(self).wf(),
            final(self)@ == old(self)@ + list_entries(content@).to_set(),
    {
        let chars = chars_of(content);
        let lines = split_chars(&chars, '\n');
        let ghost all = char_parts(lines@);
        let mut k: usize = 0;
        assert(all.take(0) =~= Seq::<Seq<char>>::empty());
        assert(entries_of_lines(all.take(0)).to_set() =~= Set::<Seq<Seq<u8>>>::empty());
        assert(old(self)@ =~= old(self)@ + Set::<Seq<Seq<u8>>>::empty());
        while k < lines.len()
            invariant
                self.wf(),
                all == char_parts(lines@),
                all == split_on(content@, '\n'),
                k <= lines@.len(),
                self@ == old(self)@ + entries_of_lines(all.take(k as int)).to_set(),
            decreases lines@.len() - k,
        {
            proof {
                assert(all.take(k + 1).drop_last() =~= all.take(k as int));
                assert(all.take(k + 1).last() == lines@[k as int]@);
            }
            match parse_list_line(&lines[k]) {
                Some(name) => {
                    let ghost n = name@;
                    self.insert(name);
                    proof {
                        assert(entries_of_lines(all.take(k + 1)) == entries_of_lines(
                            all.take(k as int),
                        ) + seq![n]);
                        entries_of_lines(all.take(k as int)).lemma_push_to_set_commute(n);
                        assert(entries_of_lines(all.take(k as int)) + seq![n] =~= entries_of_lines(
                            all.take(k as int),
                        ).push(n));
                        assert(entries_of_lines(all.take(k + 1)).to_set() =~= entries_of_lines(
                            all.take(k as int),
                        ).to_set().insert(n));
                        assert(self@ =~= old(self)@ + entries_of_lines(all.take(k + 1)).to_set());
                    }
                },
                None => {
                    proof {
                        assert(entries_of_lines(all.take(k + 1)) =~= entries_of_lines(
                            all.take(k as int),
                        ));
                    }
                },
            }
            k = k + 1;
        }
        proof {
            assert(all.take(k as int) =~= all);
        }
    }

    /// A copy of the set.
    pub fn duplicate(&self) -> (r: DomainSet)
        requires
            self.wf(),
        ensures
            r.wf(),
            r@ == self@,
    {
        let mut r = DomainSet::new();
        let mut i: usize = 0;
        while i < self.names.len()
            invariant
                r.wf(),
                i <= self.names@.len(),
                r@ == Set::new(|n: Seq<Seq<u8>>| exists|j: int| 0 <= j < i && #[trigger] self.names@[j]@ == n),
            decreases self.names@.len() - i,
        {
            let ghost before = r@;
            let copy = self.names[i].duplicate();
            r.insert(copy);
            proof {
                assert(r@ =~= Set::new(|n: Seq<Seq<u8>>| exists|j: int| 0 <= j < i + 1 && #[trigger] self.names@[j]@ == n)) by {
                    assert forall|n: Seq<Seq<u8>>| r@.contains(n) <==> (exists|j: int| 0 <= j < i + 1 && #[trigger] self.names@[j]@ == n) by {
                        if n == self.names@[i as int]@ {
                        } else if r@.contains(n) {
                            assert(before.contains(n));
                        }
                    }
                }
            }
            i = i + 1;
        }
        assert(r@ =~= self@);
        r
    }

    proof fn lemma_listed_in_bucket(&self, target: Seq<Seq<u8>>)
        requires
            self.wf(),
            self.names@.len() <= usize::MAX,
            self@.contains(target),
        ensures
            self.index@.contains_key(labels_hash(target) as u64),
            exists|jj: int|
                0 <= jj < self.index@[labels_hash(target) as u64]@.len()
                    && self.names@[#[trigger] self.index@[labels_hash(target) as u64]@[jj] as int]@ == target,
    {
        let i = choose|i: int| 0 <= i < self.names@.len() && #[trigger] self.names@[i]@ == target;
        let h = labels_hash(target) as u64;
        let name = self.names@[i];
        assert(name@ == target);
        assert(self.index@.contains_key(labels_hash(name@) as u64) && self.index@[labels_hash(
            name@,
        ) as u64]@.contains(i as usize));
        let bucket = self.index@[h]@;
        assert(bucket.contains(i as usize));
        let jj = choose|jj: int| 0 <= jj < bucket.len() && bucket[jj] == i as usize;
        assert((i as usize) as int == i);
        assert(self.names@[bucket[jj] as int] == name);
    }

    proof fn lemma_bucket_entry(&self, h: u64, j: int)
        requires
            self.wf(),
            self.index@.contains_key(h),
            0 <= j < self.index@[h]@.len(),
        ensures
            self.index@[h]@[j] < self.names@.len(),
    {
    }

    /// Whether `name` without its first `k` labels is in the set.
    fn contains_suffix(&self, name: &LowerName, k: usize) -> (r: bool)
        requires
            self.wf(),
            k <= name@.len(),
        ensures
            r == self@.contains(name@.skip(k as int)),
    {
        let ghost target = name@.skip(k as int);
        let count: usize = self.names.len();
        let h: u64 = name.suffix_hash(k);
        match self.index.get(&h) {
            None => {
                proof {
                    if self@.contains(target) {
                        self.lemma_listed_in_bucket(target);
                    }
                }
                false
            },
            Some(bucket) => {
                let mut j: usize = 0;
                while j < bucket.len()
                    invariant
                        self.wf(),
                        count == self.names@.len(),
                        k <= name@.len(),
                        target == name@.skip(k as int),
                        self.index@.contains_key(h),
                        bucket@ == self.index@[h]@,
                        j <= bucket@.len(),
                        forall|jj: int| 0 <= jj < j ==> self.names@[bucket@[jj] as int]@ != target,
                    decreases bucket@.len() - j,
                {
                    let i: usize = bucket[j];
                    proof {
                        self.lemma_bucket_entry(h, j as int);
                    }
                    if self.names[i].equals_suffix_of(name, k) {
                        proof {
                            assert(self@.contains(target)) by {
                                assert(self.names@[i as int]@ == target);
                            }
                        }
                        return true;
                    }
                    j = j + 1;
                }
                proof {
                    if self@.contains(target) {
                        self.lemma_listed_in_bucket(target);
                    }
                }
                false
            },
        }
    }
}

/// Whether a name is in the set or below a name in the set: some name
/// obtained by removing its leading labels (possibly none, possibly all) is
/// listed.
pub open spec fn matches_spec(domains: Set<Seq<Seq<u8>>>, name: Seq<Seq<u8>>) -> bool {
    exists|k: int| 0 <= k <= name.len() && #[trigger] domains.contains(name.skip(k))
}

/// Where a source is loaded from.
#[derive(Debug, PartialEq, Eq)]
pub enum SourceLocation {
    /// An HTTP or HTTPS URL.
    Remote(String),
    /// A file, by its path relative to the zone directory.
    Local(String),
}

/// Whether `s` starts with `p`.
pub open spec fn has_prefix(s: Seq<char>, p: Seq<char>) -> bool {
    p.len() <= s.len() && s.take(p.len() as int) == p
}

fn starts_with(s: &Vec<char>, p: &str) -> (r: bool)
    ensures
        r == has_prefix(s@, p@),
{
    let pc = chars_of(p);
    if pc.len() > s.len() {
        return false;
    }
    let mut i: usize = 0;
    while i < pc.len()
        invariant
            pc@ == p@,
            pc@.len() <= s@.len(),
            i <= pc@.len(),
            forall|j: int| 0 <= j < i ==> s@[j] == pc@[j],
        decreases pc@.len() - i,
    {
        if s[i] != pc[i] {
            assert(s@.take(pc@.len() as int)[i as int] != pc@[i as int]);
            return false;
        }
        i = i + 1;
    }
    assert(s@.take(pc@.len() as int) =~= pc@);
    true
}

/// Whether a source names an HTTP or HTTPS URL.
pub open spec fn is_remote(source: Seq<char>) -> bool {
    has_prefix(source, "http://"@) || has_prefix(source, "https://"@)
}

/// Where a source is loaded from: URLs starting with `http://` or
/// `https://` remotely, anything else as a file in the zone directory.
pub fn source_location(source: &BlocklistSource) -> (r: SourceLocation)
    ensures
        is_remote(source.source@) ==> (r matches SourceLocation::Remote(u) && u@ == source.source@),
        !is_remote(source.source@) ==> (r matches SourceLocation::Local(p) && p@ == source.source@),
{
    let chars = chars_of(source.source.as_str());
    if starts_with(&chars, "http://") || starts_with(&chars, "https://") {
        SourceLocation::Remote(source.source.clone())
    } else {
        SourceLocation::Local(source.source.clone())
    }
}

/// How far a remote fetch went.
#[derive(Debug, PartialEq, Eq, Structural, Clone, Copy)]
pub enum FetchReply {
    /// The server answered with this HTTP status.
    Status(u16),
    /// No answer came: the connection or the request failed.
    TransportFailed,
    /// The answer was a success, but its body could not be read.
    BodyFailed,
}

/// What to do after a remote fetch.
#[derive(Debug, PartialEq, Eq, Structural, Clone, Copy)]
pub enum FetchOutcome {
    /// Read the response body: it is the list.
    UseBody,
    /// The fetch failed but failures are allowed: keep the source's previous
    /// list.
    KeepPrevious,
    /// The fetch failed: the load fails.
    Fail,
}

/// Whether an HTTP status code is a success (2xx).
pub open spec fn is_success_status(status: u16) -> bool {
    200 <= status <= 299
}

/// What to do after a remote fetch: a success status gives the body; any
/// failure (another status, no answer, an unreadable body) keeps the previous
/// list where the source allows failures, and fails the load where it does
/// not.
pub open spec fn fetch_outcome_spec(allow_failure: bool, reply: FetchReply) -> FetchOutcome {
    if reply matches FetchReply::Status(status) && is_success_status(status) {
        FetchOutcome::UseBody
    } else if allow_failure {
        FetchOutcome::KeepPrevious
    } else {
        FetchOutcome::Fail
    }
}

/// A fetch gives its body exactly for a status from 200 to 299; every other
/// status, a failed connection and an unreadable body keep the previous list
/// where the source allows failures and fail the load where it does not.
pub proof fn law_fetch_outcomes(allow_failure: bool, reply: FetchReply)
    ensures
        (fetch_outcome_spec(allow_failure, reply) == FetchOutcome::UseBody) <==> (reply matches FetchReply::Status(s) && 200 <= s < 300),
        fetch_outcome_spec(allow_failure, reply) != FetchOutcome::UseBody ==> (fetch_outcome_spec(
            allow_failure,
            reply,
        ) == if allow_failure {
            FetchOutcome::KeepPrevious
        } else {
            FetchOutcome::Fail
        }),
{
}

/// What to do after a remote fetch of `source` that went as far as `reply`.
pub fn fetch_outcome(source: &BlocklistSource, reply: FetchReply) -> (r: FetchOutcome)
    ensures
        r == fetch_outcome_spec(source.allow_failure, reply),
{
    match reply {
        FetchReply::Status(status) => {
            if 200 <= status && status <= 299 {
                return FetchOutcome::UseBody;
            }
        },
        _ => {},
    }
    if source.allow_failure {
        FetchOutcome::KeepPrevious
    } else {
        FetchOutcome::Fail
    }
}

/// What reading one source gave.
#[derive(Debug)]
pub enum SourceRead {
    /// The text of the list: a local file, or the body of a successful fetch.
    Text(String),
    /// A remote fetch that did not give the list, with the message that
    /// describes the failure.
    FetchFailed(String),
    /// A local file that could not be opened or read, with the message.
    FileFailed(String),
}

/// The list of one source after a read: the domains of a text; for a failed
/// fetch the previous list where failures are allowed (see
/// `fetch_outcome_spec`), the failure's message otherwise; for a file that
/// could not be read, its message.
pub open spec fn source_result(
    allow_failure: bool,
    read: SourceRead,
    previous: Set<Seq<Seq<u8>>>,
) -> Result<Set<Seq<Seq<u8>>>, Seq<char>> {
    match read {
        SourceRead::Text(t) => Ok(list_entries(t@).to_set()),
        SourceRead::FetchFailed(msg) => if allow_failure {
            Ok(previous)
        } else {
            Err(msg@)
        },
        SourceRead::FileFailed(msg) => Err(msg@),
    }
}

/// The previous list of source `i`: empty where there was none.
pub open spec fn previous_list(previous: Seq<Set<Seq<Seq<u8>>>>, i: int) -> Set<Seq<Seq<u8>>> {
    if 0 <= i < previous.len() {
        previous[i]
    } else {
        Set::empty()
    }
}

/// The lists after reading every source, in order: the first failure's
/// message if a source fails, otherwise each source's list.
pub open spec fn reload_spec(
    previous: Seq<Set<Seq<Seq<u8>>>>,
    sources: Seq<BlocklistSource>,
    reads: Seq<SourceRead>,
) -> Result<Seq<Set<Seq<Seq<u8>>>>, Seq<char>>
    decreases reads.len(),
{
    if reads.len() == 0 {
        Ok(Seq::empty())
    } else {
        let i = reads.len() - 1;
        match reload_spec(previous, sources.take(i), reads.drop_last()) {
            Err(m) => Err(m),
            Ok(lists) => match source_result(
                sources[i].allow_failure,
                reads.last(),
                previous_list(previous, i),
            ) {
                Err(m) => Err(m),
                Ok(list) => Ok(lists.push(list)),
            },
        }
    }
}

proof fn lemma_reload_failure_stays(
    previous: Seq<Set<Seq<Seq<u8>>>>,
    sources: Seq<BlocklistSource>,
    reads: Seq<SourceRead>,
    k: int,
    m: Seq<char>,
)
    requires
        reads.len() == sources.len(),
        0 <= k <= reads.len(),
        reload_spec(previous, sources.take(k), reads.take(k)) == Err::<Seq<Set<Seq<Seq<u8>>>>, Seq<char>>(m),
    ensures
        reload_spec(previous, sources, reads) == Err::<Seq<Set<Seq<Seq<u8>>>>, Seq<char>>(m),
    decreases reads.len(),
{
    if k == reads.len() {
        assert(sources.take(k) =~= sources);
        assert(reads.take(k) =~= reads);
    } else {
        let i = reads.len() - 1;
        assert(sources.take(i).take(k) =~= sources.take(k));
        assert(reads.drop_last().take(k) =~= reads.take(k));
        lemma_reload_failure_stays(previous, sources.take(i), reads.drop_last(), k, m);
    }
}

/// Whether reading source `i` fails the load: a file that could not be read,
/// or a failed fetch of a source that does not allow failures.
pub open spec fn read_fails(sources: Seq<BlocklistSource>, reads: Seq<SourceRead>, i: int) -> bool {
    ||| reads[i] is FileFailed
    ||| (reads[i] is FetchFailed && !sources[i].allow_failure)
}

proof fn lemma_reload_shape(
    previous: Seq<Set<Seq<Seq<u8>>>>,
    sources: Seq<BlocklistSource>,
    reads: Seq<SourceRead>,
)
    requires
        reads.len() == sources.len(),
    ensures
        reload_spec(previous, sources, reads) is Err <==> exists|i: int|
            0 <= i < reads.len() && #[trigger] read_fails(sources, reads, i),
        reload_spec(previous, sources, reads) matches Ok(lists) ==> lists.len() == reads.len()
            && forall|i: int|
            0 <= i < reads.len() ==> source_result(
                sources[i].allow_failure,
                reads[i],
                previous_list(previous, i),
            ) == Ok::<Set<Seq<Seq<u8>>>, Seq<char>>(#[trigger] lists[i]),
    decreases reads.len(),
{
    if reads.len() > 0 {
        let n = reads.len() - 1;
        let ps = sources.take(n);
        let pr = reads.drop_last();
        lemma_reload_shape(previous, ps, pr);
        assert forall|i: int| 0 <= i < n implies (read_fails(ps, pr, i) <==> read_fails(
            sources,
            reads,
            i,
        )) by {
            assert(ps[i] == sources[i]);
            assert(pr[i] == reads[i]);
        }
        if reload_spec(previous, sources, reads) is Err {
            if reload_spec(previous, ps, pr) is Err {
                let i = choose|i: int| 0 <= i < pr.len() && #[trigger] read_fails(ps, pr, i);
                assert(read_fails(sources, reads, i));
            } else {
                assert(read_fails(sources, reads, n));
            }
        } else {
            assert forall|i: int| 0 <= i < reads.len() implies !#[trigger] read_fails(
                sources,
                reads,
                i,
            ) by {
                if i < n {
                    assert(!read_fails(ps, pr, i));
                }
            }
            let lists = reload_spec(previous, sources, reads)->Ok_0;
            let front = reload_spec(previous, ps, pr)->Ok_0;
            assert forall|i: int| 0 <= i < reads.len() implies source_result(
                sources[i].allow_failure,
                reads[i],
                previous_list(previous, i),
            ) == Ok::<Set<Seq<Seq<u8>>>, Seq<char>>(#[trigger] lists[i]) by {
                if i < n {
                    assert(lists[i] == front[i]);
                    assert(ps[i] == sources[i]);
                    assert(pr[i] == reads[i]);
                }
            }
        }
    }
}

/// A failed fetch of a source that allows failures keeps that source's
/// previous list in a reload that succeeds.
pub proof fn law_allowed_fetch_failure_keeps_previous(
    previous: Seq<Set<Seq<Seq<u8>>>>,
    sources: Seq<BlocklistSource>,
    reads: Seq<SourceRead>,
    i: int,
)
    requires
        reads.len() == sources.len(),
        0 <= i < reads.len(),
        reads[i] is FetchFailed,
        sources[i].allow_failure,
        reload_spec(previous, sources, reads) is Ok,
    ensures
        reload_spec(previous, sources, reads)->Ok_0[i] == previous_list(previous, i),
{
    lemma_reload_shape(previous, sources, reads);
}

/// A reload fails exactly when some source fails the load: a file that could
/// not be read, or a failed fetch of a source that does not allow failures.
/// Otherwise it gives one list per source: the domains of its text, or its
/// previous list after an allowed fetch failure.
pub proof fn law_reload_fails_exactly_on_unallowed_failure(
    previous: Seq<Set<Seq<Seq<u8>>>>,
    sources: Seq<BlocklistSource>,
    reads: Seq<SourceRead>,
)
    requires
        reads.len() == sources.len(),
    ensures
        reload_spec(previous, sources, reads) is Err <==> exists|i: int|
            0 <= i < reads.len() && #[trigger] read_fails(sources, reads, i),
        reload_spec(previous, sources, reads) matches Ok(lists) ==> lists.len() == reads.len()
            && forall|i: int|
            0 <= i < reads.len() ==> #[trigger] lists[i] == match reads[i] {
                SourceRead::Text(t) => list_entries(t@).to_set(),
                _ => previous_list(previous, i),
            },
{
    lemma_reload_shape(previous, sources, reads);
}

/// Reloading reads the sources one after the other: after the first `k`
/// sources have given their lists, the next source either adds its list or
/// ends the reload with its failure (and the sources after it are not
/// needed).
pub proof fn law_reload_step(
    previous: Seq<Set<Seq<Seq<u8>>>>,
    sources: Seq<BlocklistSource>,
    reads: Seq<SourceRead>,
    k: int,
)
    requires
        reads.len() == sources.len(),
        0 <= k < reads.len(),
    ensures
        reload_spec(previous, sources.take(k + 1), reads.take(k + 1)) == match reload_spec(
            previous,
            sources.take(k),
            reads.take(k),
        ) {
            Err(m) => Err(m),
            Ok(done) => match source_result(
                sources[k].allow_failure,
                reads[k],
                previous_list(previous, k),
            ) {
                Err(m) => Err(m),
                Ok(list) => Ok(done.push(list)),
            },
        },
{
    assert(reads.take(k + 1).drop_last() =~= reads.take(k));
    assert(sources.take(k + 1).take(k) =~= sources.take(k));
    assert(reads.take(k + 1).last() == reads[k]);
    assert(sources.take(k + 1)[k] == sources[k]);
}

/// Every domain in some list.
pub open spec fn union_of(lists: Seq<Set<Seq<Seq<u8>>>>) -> Set<Seq<Seq<u8>>> {
    Set::new(|n: Seq<Seq<u8>>| exists|i: int| 0 <= i < lists.len() && #[trigger] lists[i].contains(n))
}

/// The domain lists of a split handler, one per source.
pub struct SplitLists {
    lists: Vec<DomainSet>,
}

impl View for SplitLists {
    type V = Seq<Set<Seq<Seq<u8>>>>;

    closed spec fn view(&self) -> Seq<Set<Seq<Seq<u8>>>> {
        self.lists@.map_values(|d: DomainSet| d@)
    }
}

/// A reload in progress: the lists of the sources read so far, in order.
pub struct Reload {
    done: Vec<DomainSet>,
}

impl View for Reload {
    type V = Seq<Set<Seq<Seq<u8>>>>;

    closed spec fn view(&self) -> Seq<Set<Seq<Seq<u8>>>> {
        self.done@.map_values(|d: DomainSet| d@)
    }
}

impl Reload {
    /// Every list of the reload is well formed.
    pub closed spec fn wf(&self) -> bool {
        forall|i: int| 0 <= i < self.done@.len() ==> (#[trigger] self.done@[i]).wf()
    }

    /// A reload with no source read yet.
    pub fn new() -> (r: Reload)
        ensures
            r.wf(),
            r@ == Seq::<Set<Seq<Seq<u8>>>>::empty(),
    {
        let r = Reload { done: Vec::new() };
        assert(r@ =~= Seq::<Set<Seq<Seq<u8>>>>::empty());
        r
    }

    /// How many sources have been read: the next read is of source
    /// `count()`.
    pub fn count(&self) -> (r: usize)
        ensures
            r == self@.len(),
    {
        self.done.len()
    }

    /// Takes what reading the next source gave, with `previous` the lists
    /// before the reload: the reload goes on with that source's list, or
    /// ends with the source's failure (see `source_result`).
    pub fn take(self, previous: &SplitLists, source: &BlocklistSource, read: &SourceRead) -> (r:
        Result<Reload, String>)
        requires
            self.wf(),
            previous.wf(),
        ensures
            match source_result(source.allow_failure, *read, previous_list(previous@, self@.len() as int)) {
                Ok(list) => r matches Ok(next) && next.wf() && next@ == self@.push(list),
                Err(m) => r matches Err(e) && e@ == m,
            },
    {
        let i: usize = self.done.len();
        let list: DomainSet = match read {
            SourceRead::Text(t) => {
                let mut d = DomainSet::new();
                d.add_list(t.as_str());
                proof {
                    assert(d@ =~= list_entries(t@).to_set());
                }
                d
            },
            SourceRead::FetchFailed(msg) => {
                if source.allow_failure {
                    if i < previous.lists.len() {
                        previous.lists[i].duplicate()
                    } else {
                        DomainSet::new()
                    }
                } else {
                    return Err(msg.clone());
                }
            },
            SourceRead::FileFailed(msg) => {
                return Err(msg.clone());
            },
        };
        let ghost before = self@;
        let mut done = self.done;
        done.push(list);
        let r = Reload { done };
        proof {
            assert(r@ =~= before.push(list@));
            assert forall|k: int| 0 <= k < r.done@.len() implies (#[trigger] r.done@[k]).wf() by {
                if k < before.len() {
                    assert(r.done@[k] == self.done@[k]);
                }
            }
        }
        Ok(r)
    }

    /// The lists that the reload gave.
    pub fn finish(self) -> (r: SplitLists)
        requires
            self.wf(),
        ensures
            r.wf(),
            r@ == self@,
    {
        SplitLists { lists: self.done }
    }
}

impl SplitLists {
    /// Every list is well formed.
    pub closed spec fn wf(&self) -> bool {
        forall|i: int| 0 <= i < self.lists@.len() ==> (#[trigger] self.lists@[i]).wf()
    }

    /// No lists: nothing loaded yet.
    pub fn new() -> (r: SplitLists)
        ensures
            r.wf(),
            r@ == Seq::<Set<Seq<Seq<u8>>>>::empty(),
    {
        let r = SplitLists { lists: Vec::new() };
        assert(r@ =~= Seq::<Set<Seq<Seq<u8>>>>::empty());
        r
    }

    /// The lists after reading every source (`reads[i]` is what reading
    /// `sources[i]` gave), starting from these lists: the first failure's
    /// message if a source fails, in which case nothing is to be replaced;
    /// otherwise each source's list.
    pub fn reload(&self, sources: &Vec<BlocklistSource>, reads: &Vec<SourceRead>) -> (r: Result<
        SplitLists,
        String,
    >)
        requires
            self.wf(),
            reads@.len() == sources@.len(),
        ensures
            match reload_spec(self@, sources@, reads@) {
                Ok(lists) => r matches Ok(l) && l.wf() && l@ == lists,
                Err(m) => r matches Err(e) && e@ == m,
            },
    {
        let mut progress = Reload::new();
        let mut i: usize = 0;
        proof {
            assert(reads@.take(0) =~= Seq::<SourceRead>::empty());
        }
        while i < reads.len()
            invariant
                self.wf(),
                progress.wf(),
                reads@.len() == sources@.len(),
                i <= reads@.len(),
                progress@.len() == i,
                reload_spec(self@, sources@.take(i as int), reads@.take(i as int)) == Ok::<
                    Seq<Set<Seq<Seq<u8>>>>,
                    Seq<char>,
                >(progress@),
            decreases reads@.len() - i,
        {
            proof {
                law_reload_step(self@, sources@, reads@, i as int);
            }
            match progress.take(self, &sources[i], &reads[i]) {
                Ok(next) => {
                    progress = next;
                },
                Err(e) => {
                    proof {
                        lemma_reload_failure_stays(self@, sources@, reads@, i + 1, e@);
                    }
                    return Err(e);
                },
            }
            i = i + 1;
        }
        proof {
            assert(reads@.take(i as int) =~= reads@);
            assert(sources@.take(i as int) =~= sources@);
        }
        Ok(progress.finish())
    }

    /// Whether `name` without its first `k` labels is in some list.
    fn contains_suffix(&self, name: &LowerName, k: usize) -> (r: bool)
        requires
            self.wf(),
            k <= name@.len(),
        ensures
            r == union_of(self@).contains(name@.skip(k as int)),
    {
        let mut i: usize = 0;
        while i < self.lists.len()
            invariant
                self.wf(),
                k <= name@.len(),
                i <= self.lists@.len(),
                forall|j: int| 0 <= j < i ==> !(#[trigger] self@[j]).contains(name@.skip(k as int)),
            decreases self.lists@.len() - i,
        {
            if self.lists[i].contains_suffix(name, k) {
                assert(self@[i as int].contains(name@.skip(k as int)));
                return true;
            }
            i = i + 1;
        }
        false
    }
}

/// Routes matching domains to a dedicated forwarder; non-matches pass to next handler.
pub struct SplitZoneHandler {
    origin: LowerName,
    match_forward: ForwardConfig,
    sources: Vec<BlocklistSource>,
    refresh: u64,
    zone_dir: String,
}

impl SplitZoneHandler {
    /// The zone origin.
    pub closed spec fn spec_origin(self) -> Seq<Seq<u8>> {
        self.origin@
    }

    /// The forwarder for matching names.
    pub closed spec fn spec_match_forward(self) -> ForwardConfig {
        self.match_forward
    }

    /// The domain list sources.
    pub closed spec fn spec_sources(self) -> Seq<BlocklistSource> {
        self.sources@
    }

    /// The refresh interval, in seconds.
    pub closed spec fn spec_refresh(self) -> u64 {
        self.refresh
    }

    /// The zone directory that local sources are relative to.
    pub closed spec fn spec_zone_dir(self) -> Seq<char> {
        self.zone_dir@
    }

    /// Build a split handler from configuration; a zone directory is needed.
    /// Its domains are loaded from the sources (`source_location`,
    /// `DomainSet::add_list`) before it answers queries.
    pub fn try_from_config(origin: Name, config: SplitConfig, zone_dir: Option<String>) -> (r: Result<
        Self,
        String,
    >)
        ensures
            zone_dir is None ==> (r matches Err(msg) && msg@
                == "split handler requires a zone directory"@),
            zone_dir matches Some(dir) ==> (r matches Ok(h) && h.spec_origin() == lower_labels(
                origin@,
            ) && h.spec_match_forward() == config.match_forward && h.spec_sources()
                == config.blocklist_source@ && h.spec_refresh() == config.blocklist_refresh
                && h.spec_zone_dir() == dir@),
    {
        let zone_dir = match zone_dir {
            Some(dir) => dir,
            None => {
                return Err(String::from_str("split handler requires a zone directory"));
            },
        };
        Ok(
            SplitZoneHandler {
                origin: LowerName::new(&origin),
                match_forward: config.match_forward,
                sources: config.blocklist_source,
                refresh: config.blocklist_refresh,
                zone_dir,
            },
        )
    }

    /// The refresh period: the interval when it is not 0, nothing when the
    /// lists are loaded once.
    pub fn refresh_period(&self) -> (r: Option<u64>)
        ensures
            r == if self.spec_refresh() > 0 {
                Some(self.spec_refresh())
            } else {
                None::<u64>
            },
    {
        if self.refresh > 0 {
            Some(self.refresh)
        } else {
            None
        }
    }

    /// The domain list sources.
    pub fn sources(&self) -> (r: &Vec<BlocklistSource>)
        ensures
            r@ == self.spec_sources(),
    {
        &self.sources
    }

    /// The zone directory that local sources are relative to.
    pub fn zone_dir(&self) -> (r: &String)
        ensures
            r@ == self.spec_zone_dir(),
    {
        &self.zone_dir
    }

    /// The forwarder for matching names.
    pub fn match_forward(&self) -> (r: &ForwardConfig)
        ensures
            *r == self.spec_match_forward(),
    {
        &self.match_forward
    }

    /// The lists of a newly made handler: its sources read for the first
    /// time (`reads[i]` is what reading source `i` gave). The first failure's
    /// message if a source fails; otherwise each source's list, an allowed
    /// fetch failure giving an empty one.
    pub fn load_lists(&self, reads: &Vec<SourceRead>) -> (r: Result<SplitLists, String>)
        requires
            reads@.len() == self.spec_sources().len(),
        ensures
            match reload_spec(Seq::empty(), self.spec_sources(), reads@) {
                Ok(lists) => r matches Ok(l) && l.wf() && l@ == lists,
                Err(m) => r matches Err(e) && e@ == m,
            },
    {
        let none = SplitLists::new();
        none.reload(&self.sources, reads)
    }

    /// Whether `name` is listed in one of the lists or lies below a listed
    /// domain.
    pub fn name_matches(&self, name: &LowerName, lists: &SplitLists) -> (r: bool)
        requires
            lists.wf(),
        ensures
            r == matches_spec(union_of(lists@), name@),
    {
        let n: usize = name.num_labels();
        let mut k: usize = 0;
        while k < n
            invariant
                lists.wf(),
                n == name@.len(),
                k <= n,
                forall|j: int| 0 <= j < k ==> !#[trigger] union_of(lists@).contains(name@.skip(j)),
            decreases n - k,
        {
            if lists.contains_suffix(name, k) {
                return true;
            }
            k = k + 1;
        }
        lists.contains_suffix(name, n)
    }

    /// The handler serves an external zone.
    pub fn zone_type(&self) -> (r: ZoneType)
        ensures
            r == ZoneType::External,
    {
        ZoneType::External
    }

    /// The handler denies zone transfers.
    pub fn axfr_policy(&self) -> (r: AxfrPolicy)
        ensures
            r == AxfrPolicy::Deny,
    {
        AxfrPolicy::Deny
    }

    /// The zone origin.
    pub fn origin(&self) -> (r: &LowerName)
        ensures
            r@ == self.spec_origin(),
    {
        &self.origin
    }

    /// The label under which the handler's metrics are reported.
    pub fn metrics_label(&self) -> (r: &'static str)
        ensures
            r@ == "split"@,
    {
        "split"
    }

    /// The handler holds no NSEC records.
    pub fn nsec_records(&self) -> (r: LookupControlFlow)
        ensures
            r matches LookupControlFlow::Continue(Err(LookupError::Io(msg))) && msg@
                == "NSEC records are unimplemented for pipeline handlers"@,
    {
        unimplemented_nsec()
    }

    /// The handler holds no NSEC3 records.
    pub fn nsec3_records(&self) -> (r: LookupControlFlow)
        ensures
            r matches LookupControlFlow::Continue(Err(LookupError::Io(msg))) && msg@
                == "NSEC3 records are unimplemented for pipeline handlers"@,
    {
        unimplemented_nsec3()
    }
}

/// A listed domain matches, and so does every name below it.
pub proof fn law_listed_domain_and_subdomains_match(
    domains: Set<Seq<Seq<u8>>>,
    listed: Seq<Seq<u8>>,
    prefix: Seq<Seq<u8>>,
)
    requires
        domains.contains(listed),
    ensures
        matches_spec(domains, prefix + listed),
{
    let name = prefix + listed;
    assert(name.skip(prefix.len() as int) =~= listed);
}

/// Whatever matches keeps matching below: a name under a matching name
/// matches too.
pub proof fn law_match_extends_to_subdomains(
    domains: Set<Seq<Seq<u8>>>,
    name: Seq<Seq<u8>>,
    prefix: Seq<Seq<u8>>,
)
    requires
        matches_spec(domains, name),
    ensures
        matches_spec(domains, prefix + name),
{
    let k = choose|k: int| 0 <= k <= name.len() && #[trigger] domains.contains(name.skip(k));
    assert((prefix + name).skip(prefix.len() + k) =~= name.skip(k));
}

/// With the root listed, every name matches.
pub proof fn law_root_matches_everything(domains: Set<Seq<Seq<u8>>>, name: Seq<Seq<u8>>)
    requires
        domains.contains(Seq::<Seq<u8>>::empty()),
    ensures
        matches_spec(domains, name),
{
    assert(name.skip(name.len() as int) =~= Seq::<Seq<u8>>::empty());
}

} // verus!
