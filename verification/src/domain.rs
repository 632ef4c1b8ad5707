//! Domain names as sequences of labels, and their lower-case form.
use vstd::prelude::*;

verus! {

/// ASCII lower case of a byte.
pub open spec fn lower_byte(b: u8) -> u8 {
    if 0x41 <= b <= 0x5A {
        (b + 32) as u8
    } else {
        b
    }
}

/// ASCII lower case of a label.
pub open spec fn lower_label(l: Seq<u8>) -> Seq<u8> {
    l.map_values(|b: u8| lower_byte(b))
}

/// ASCII lower case of every label.
pub open spec fn lower_labels(ls: Seq<Seq<u8>>) -> Seq<Seq<u8>> {
    ls.map_values(|l: Seq<u8>| lower_label(l))
}

/// Lower-casing takes every ASCII capital `A`..`Z` to its small letter,
/// leaves every other byte as it is, and leaves no capital behind.
pub proof fn law_lower_byte(b: u8)
    ensures
        0x41 <= b <= 0x5A ==> lower_byte(b) == b + 32,
        !(0x41 <= b <= 0x5A) ==> lower_byte(b) == b,
        !(0x41 <= lower_byte(b) <= 0x5A),
{
}

/// Whether two bytes are equal apart from ASCII case.
pub open spec fn same_ignoring_case(x: u8, y: u8) -> bool {
    ||| x == y
    ||| (0x41 <= x <= 0x5A && y == x + 32)
    ||| (0x41 <= y <= 0x5A && x == y + 32)
}

/// Names that differ only in ASCII case have the same lower-case form.
pub proof fn law_case_insensitive_names(n: Seq<Seq<u8>>, m: Seq<Seq<u8>>)
    requires
        n.len() == m.len(),
        forall|k: int| 0 <= k < n.len() ==> (#[trigger] n[k]).len() == m[k].len(),
        forall|k: int, i: int|
            0 <= k < n.len() && 0 <= i < n[k].len() ==> same_ignoring_case(#[trigger] n[k][i], m[k][i]),
    ensures
        lower_labels(n) == lower_labels(m),
{
    assert forall|k: int| 0 <= k < n.len() implies #[trigger] lower_label(n[k]) == lower_label(m[k]) by {
        assert forall|i: int| 0 <= i < n[k].len() implies lower_label(n[k])[i] == lower_label(m[k])[i] by {
            assert(same_ignoring_case(n[k][i], m[k][i]));
        }
        assert(lower_label(n[k]) =~= lower_label(m[k]));
    }
    assert(lower_labels(n) =~= lower_labels(m));
}

/// The byte sequences of a vector of labels.
pub open spec fn labels_view(ls: Seq<Vec<u8>>) -> Seq<Seq<u8>> {
    ls.map_values(|l: Vec<u8>| l@)
}

/// The characters of a string.
pub fn chars_of(s: &str) -> (r: Vec<char>)
    ensures
        r@ == s@,
{
    let mut out: Vec<char> = Vec::new();
    for c in it: s.chars()
        invariant
            out@ == it.seq().take(it.index() as int),
    {
        out.push(c);
    }
    out
}

/// `s` without its leading characters that satisfy `f`.
pub open spec fn drop_while(s: Seq<char>, f: spec_fn(char) -> bool) -> Seq<char>
    decreases s.len(),
{
    if s.len() > 0 && f(s[0]) {
        drop_while(s.drop_first(), f)
    } else {
        s
    }
}

/// `s` without its trailing characters that satisfy `f`.
pub open spec fn drop_while_end(s: Seq<char>, f: spec_fn(char) -> bool) -> Seq<char>
    decreases s.len(),
{
    if s.len() > 0 && f(s.last()) {
        drop_while_end(s.drop_last(), f)
    } else {
        s
    }
}

pub proof fn lemma_drop_while(s: Seq<char>, f: spec_fn(char) -> bool, a: int)
    requires
        0 <= a <= s.len(),
        forall|j: int| 0 <= j < a ==> f(#[trigger] s[j]),
        a == s.len() || !f(s[a]),
    ensures
        drop_while(s, f) == s.skip(a),
    decreases a,
{
    if a == 0 {
        assert(s.skip(0) =~= s);
    } else {
        assert(s.drop_first().skip(a - 1) =~= s.skip(a));
        lemma_drop_while(s.drop_first(), f, a - 1);
    }
}

pub proof fn lemma_drop_while_end(s: Seq<char>, f: spec_fn(char) -> bool, b: int)
    requires
        0 <= b <= s.len(),
        forall|j: int| b <= j < s.len() ==> f(#[trigger] s[j]),
        b == 0 || !f(s[b - 1]),
    ensures
        drop_while_end(s, f) == s.take(b),
    decreases s.len() - b,
{
    if b == s.len() {
        assert(s.take(b) =~= s);
    } else {
        assert(s.drop_last().take(b) =~= s.take(b));
        lemma_drop_while_end(s.drop_last(), f, b);
    }
}

/// The parts of `s` between the separators `sep`.
pub open spec fn split_on(s: Seq<char>, sep: char) -> Seq<Seq<char>>
    decreases s.len(),
{
    if s.len() == 0 {
        seq![Seq::<char>::empty()]
    } else {
        let prev = split_on(s.drop_last(), sep);
        if s.last() == sep {
            prev.push(Seq::<char>::empty())
        } else {
            prev.update(prev.len() - 1, prev.last().push(s.last()))
        }
    }
}

pub proof fn lemma_split_on_nonempty(s: Seq<char>, sep: char)
    ensures
        split_on(s, sep).len() >= 1,
    decreases s.len(),
{
    if s.len() > 0 {
        lemma_split_on_nonempty(s.drop_last(), sep);
    }
}

/// The character sequences of a vector of character vectors.
pub open spec fn char_parts(parts: Seq<Vec<char>>) -> Seq<Seq<char>> {
    parts.map_values(|v: Vec<char>| v@)
}

/// Splits characters at the separator `sep`.
pub fn split_chars(s: &Vec<char>, sep: char) -> (r: Vec<Vec<char>>)
    ensures
        char_parts(r@) == split_on(s@, sep),
{
    let mut parts: Vec<Vec<char>> = Vec::new();
    let mut cur: Vec<char> = Vec::new();
    let mut i: usize = 0;
    assert(s@.take(0) =~= Seq::<char>::empty());
    assert(char_parts(parts@).push(cur@) =~= split_on(s@.take(0), sep));
    while i < s.len()
        invariant
            i <= s@.len(),
            char_parts(parts@).push(cur@) == split_on(s@.take(i as int), sep),
        decreases s@.len() - i,
    {
        let c: char = s[i];
        let ghost before = char_parts(parts@).push(cur@);
        proof {
            assert(s@.take(i + 1).drop_last() =~= s@.take(i as int));
            assert(s@.take(i + 1).last() == c);
            lemma_split_on_nonempty(s@.take(i as int), sep);
        }
        if c == sep {
            let done = cur;
            parts.push(done);
            cur = Vec::new();
            proof {
                assert(char_parts(parts@).push(cur@) =~= before.push(Seq::<char>::empty()));
            }
        } else {
            cur.push(c);
            proof {
                assert(char_parts(parts@).push(cur@) =~= before.update(
                    before.len() - 1,
                    before.last().push(c),
                ));
            }
        }
        i = i + 1;
    }
    parts.push(cur);
    proof {
        assert(s@.take(s@.len() as int) =~= s@);
    }
    parts
}

/// Characters allowed in a label: ASCII letters and digits and `_`
/// anywhere, `*` only first (a wildcard), `-` only after the first.
pub open spec fn is_label_char(c: char, first: bool) -> bool {
    ||| ('a' <= c <= 'z') || ('A' <= c <= 'Z') || ('0' <= c <= '9') || c == '_'
    ||| (c == '*' && first)
    ||| (c == '-' && !first)
}

/// A label is 1 to 63 label characters.
pub open spec fn valid_label(l: Seq<char>) -> bool {
    1 <= l.len() <= 63 && forall|i: int| 0 <= i < l.len() ==> is_label_char(#[trigger] l[i], i == 0)
}

/// The number of bytes the labels take on the wire, without the root label.
pub open spec fn labels_wire_len(labels: Seq<Seq<char>>) -> int
    decreases labels.len(),
{
    if labels.len() == 0 {
        0
    } else {
        labels_wire_len(labels.drop_last()) + labels.last().len() + 1
    }
}

proof fn lemma_wire_len_prefix(labels: Seq<Seq<char>>, k: int)
    requires
        0 <= k <= labels.len(),
    ensures
        labels_wire_len(labels.take(k)) <= labels_wire_len(labels),
    decreases labels.len() - k,
{
    if k == labels.len() {
        assert(labels.take(k) =~= labels);
    } else {
        lemma_wire_len_prefix(labels.drop_last(), k);
        assert(labels.drop_last().take(k) =~= labels.take(k));
    }
}

/// The bytes of an ASCII label.
pub open spec fn label_bytes(l: Seq<char>) -> Seq<u8> {
    l.map_values(|c: char| c as u8)
}

/// A textual name without its final `.`, if it has one.
pub open spec fn name_body(t: Seq<char>) -> Seq<char> {
    if t.len() > 0 && t.last() == '.' {
        t.drop_last()
    } else {
        t
    }
}

proof fn lemma_invalid_label_rejects(t: Seq<char>, k: int)
    requires
        t.len() > 0,
        t != seq!['.'],
        0 <= k < split_on(name_body(t), '.').len(),
        !valid_label(split_on(name_body(t), '.')[k]),
    ensures
        parse_name_spec(t) is None,
{
}

/// What a textual domain name denotes: the empty text is the empty name, `.`
/// the root; otherwise labels separated by `.`, with a final `.` marking a
/// fully qualified name. Every label must be valid and the name must fit in
/// 255 bytes on the wire.
pub open spec fn parse_name_spec(t: Seq<char>) -> Option<(Seq<Seq<u8>>, bool)> {
    if t.len() == 0 {
        Some((Seq::empty(), false))
    } else if t == seq!['.'] {
        Some((Seq::empty(), true))
    } else {
        let fqdn = t.last() == '.';
        let labels = split_on(name_body(t), '.');
        if (forall|i: int| 0 <= i < labels.len() ==> valid_label(#[trigger] labels[i]))
            && labels_wire_len(labels) <= 254 {
            Some((labels.map_values(|l: Seq<char>| label_bytes(l)), fqdn))
        } else {
            None
        }
    }
}

/// Labels joined by dots.
pub open spec fn dotted(labels: Seq<Seq<char>>) -> Seq<char>
    decreases labels.len(),
{
    if labels.len() <= 1 {
        if labels.len() == 0 {
            Seq::empty()
        } else {
            labels[0]
        }
    } else {
        dotted(labels.drop_last()) + seq!['.'] + labels.last()
    }
}

/// An ASCII letter or digit.
pub open spec fn is_ascii_alnum(c: char) -> bool {
    ('a' <= c <= 'z') || ('A' <= c <= 'Z') || ('0' <= c <= '9')
}

proof fn lemma_split_without_sep(b: Seq<char>, sep: char)
    requires
        forall|i: int| 0 <= i < b.len() ==> b[i] != sep,
    ensures
        split_on(b, sep) == seq![b],
    decreases b.len(),
{
    if b.len() == 0 {
        assert(b =~= Seq::<char>::empty());
    } else {
        lemma_split_without_sep(b.drop_last(), sep);
        assert(b.drop_last().push(b.last()) =~= b);
        assert(b.last() != sep);
        assert(seq![b.drop_last()].update(0, b.drop_last().push(b.last())) =~= seq![b]);
    }
}

proof fn lemma_split_after_sep(a: Seq<char>, b: Seq<char>, sep: char)
    requires
        forall|i: int| 0 <= i < b.len() ==> b[i] != sep,
    ensures
        split_on(a + seq![sep] + b, sep) == split_on(a, sep).push(b),
    decreases b.len(),
{
    lemma_split_on_nonempty(a, sep);
    if b.len() == 0 {
        assert(b =~= Seq::<char>::empty());
        assert((a + seq![sep] + b).drop_last() =~= a);
        assert((a + seq![sep] + b).last() == sep);
    } else {
        lemma_split_after_sep(a, b.drop_last(), sep);
        assert((a + seq![sep] + b).drop_last() =~= a + seq![sep] + b.drop_last());
        assert((a + seq![sep] + b).last() == b.last());
        assert(b.last() != sep);
        assert(b.drop_last().push(b.last()) =~= b);
        let prev = split_on(a, sep).push(b.drop_last());
        assert(prev.update(prev.len() - 1, prev.last().push(b.last())) =~= split_on(a, sep).push(b));
        assert(split_on(a + seq![sep] + b, sep) == prev.update(prev.len() - 1, prev.last().push(b.last())));
    }
}

pub(crate) proof fn lemma_dotted(labels: Seq<Seq<char>>)
    requires
        labels.len() >= 1,
        forall|k: int, i: int|
            0 <= k < labels.len() && 0 <= i < labels[k].len() ==> is_ascii_alnum(#[trigger] labels[k][i]),
        forall|k: int| 0 <= k < labels.len() ==> (#[trigger] labels[k]).len() >= 1,
    ensures
        split_on(dotted(labels), '.') == labels,
        labels_wire_len(labels) == dotted(labels).len() + 1,
        dotted(labels).len() >= 1,
        is_ascii_alnum(dotted(labels).last()),
        is_ascii_alnum(dotted(labels)[0]),
        forall|i: int| 0 <= i < dotted(labels).len() ==> is_ascii_alnum(#[trigger] dotted(labels)[i]) || dotted(labels)[i] == '.',
    decreases labels.len(),
{
    assert(is_ascii_alnum(labels[0][0]));
    let last = labels.last();
    assert forall|i: int| 0 <= i < last.len() implies last[i] != '.' by {
        assert(is_ascii_alnum(labels[labels.len() - 1][i]));
    }
    assert(is_ascii_alnum(labels[labels.len() - 1][last.len() - 1]));
    if labels.len() == 1 {
        assert forall|i: int| 0 <= i < labels[0].len() implies is_ascii_alnum(#[trigger] labels[0][i]) by {}
        lemma_split_without_sep(labels[0], '.');
        assert(seq![labels[0]] =~= labels);
        assert(labels.drop_last() =~= Seq::<Seq<char>>::empty());
        assert(labels_wire_len(labels.drop_last()) == 0);
    } else {
        let init = labels.drop_last();
        assert forall|k: int, i: int| 0 <= k < init.len() && 0 <= i < init[k].len() implies is_ascii_alnum(
            #[trigger] init[k][i],
        ) by {
            assert(init[k] == labels[k]);
        }
        assert forall|k: int| 0 <= k < init.len() implies (#[trigger] init[k]).len() >= 1 by {
            assert(init[k] == labels[k]);
        }
        lemma_dotted(init);
        lemma_split_after_sep(dotted(init), last, '.');
        assert(init.push(last) =~= labels);
        let d = dotted(labels);
        assert(d == dotted(init) + seq!['.'] + last);
        assert(d[0] == dotted(init)[0]);
        assert forall|i: int| 0 <= i < d.len() implies is_ascii_alnum(#[trigger] d[i]) || d[i] == '.' by {
            if i < dotted(init).len() {
                assert(d[i] == dotted(init)[i]);
            } else if i > dotted(init).len() {
                assert(d[i] == last[i - dotted(init).len() - 1]);
                assert(is_ascii_alnum(labels[labels.len() - 1][i - dotted(init).len() - 1]));
            }
        }
        assert((dotted(init) + seq!['.'] + last).len() == dotted(init).len() + 1 + last.len());
    }
}

/// Every name written as labels of 1 to 63 ASCII letters and digits, in any
/// order, joined by dots, and at most 253 characters long, parses to those
/// labels' bytes: not fully qualified as written, fully qualified with a
/// final dot.
pub proof fn law_alphanumeric_names_parse(labels: Seq<Seq<char>>)
    requires
        labels.len() >= 1,
        forall|k: int| 0 <= k < labels.len() ==> 1 <= (#[trigger] labels[k]).len() <= 63,
        forall|k: int, i: int|
            0 <= k < labels.len() && 0 <= i < labels[k].len() ==> is_ascii_alnum(#[trigger] labels[k][i]),
        dotted(labels).len() <= 253,
    ensures
        parse_name_spec(dotted(labels)) == Some(
            (labels.map_values(|l: Seq<char>| l.map_values(|c: char| c as u8)), false),
        ),
        parse_name_spec(dotted(labels) + seq!['.']) == Some(
            (labels.map_values(|l: Seq<char>| l.map_values(|c: char| c as u8)), true),
        ),
{
    assert forall|k: int| 0 <= k < labels.len() implies (#[trigger] labels[k]).len() >= 1 by {}
    lemma_dotted(labels);
    let t = dotted(labels);
    assert forall|k: int| 0 <= k < labels.len() implies valid_label(#[trigger] labels[k]) by {
        assert forall|i: int| 0 <= i < labels[k].len() implies is_label_char(#[trigger] labels[k][i], i == 0) by {
            assert(is_ascii_alnum(labels[k][i]));
        }
    }
    let bytes = labels.map_values(|l: Seq<char>| l.map_values(|c: char| c as u8));
    assert(labels.map_values(|l: Seq<char>| label_bytes(l)) =~= bytes);
    assert(t.last() != '.');
    assert(name_body(t) == t);
    if t == seq!['.'] {
        assert(t.last() == '.');
    }
    let u = t + seq!['.'];
    assert(u.last() == '.');
    assert(u.drop_last() =~= t);
    assert(name_body(u) == t);
    assert(u.len() >= 2);
    if u == seq!['.'] {
        assert(u.len() == 1);
    }
}

/// A text that is no domain name.
#[derive(Debug, PartialEq, Eq, Structural, Clone, Copy)]
pub struct NameError;

fn is_label_char_exec(c: char, first: bool) -> (r: bool)
    ensures
        r == is_label_char(c, first),
{
    ('a' <= c && c <= 'z') || ('A' <= c && c <= 'Z') || ('0' <= c && c <= '9') || c == '_' || (c
        == '*' && first) || (c == '-' && !first)
}

/// The name that a text denotes.
pub fn parse_name_chars(t: &Vec<char>) -> (r: Result<Name, NameError>)
    ensures
        match parse_name_spec(t@) {
            Some((labels, fqdn)) => r matches Ok(n) && n@ == labels && n.spec_is_fqdn() == fqdn,
            None => r is Err,
        },
{
    if t.len() == 0 {
        let n = Name { labels: Vec::new(), fqdn: false };
        assert(n@ =~= Seq::<Seq<u8>>::empty());
        return Ok(n);
    }
    if t.len() == 1 && t[0] == '.' {
        assert(t@ =~= seq!['.']);
        return Ok(Name::root());
    }
    assert(t@ != seq!['.']);
    let fqdn: bool = t[t.len() - 1] == '.';
    let mut body: Vec<char> = Vec::new();
    let body_len: usize = if fqdn {
        t.len() - 1
    } else {
        t.len()
    };
    let mut i: usize = 0;
    while i < body_len
        invariant
            body_len <= t@.len(),
            i <= body_len,
            body@ == t@.take(i as int),
        decreases body_len - i,
    {
        body.push(t[i]);
        proof {
            assert(t@.take(i + 1) =~= t@.take(i as int).push(t@[i as int]));
        }
        i = i + 1;
    }
    proof {
        if fqdn {
            assert(body@ =~= t@.drop_last());
        } else {
            assert(body@ =~= t@);
        }
    }
    let parts = split_chars(&body, '.');
    let ghost labels = split_on(body@, '.');
    let mut out: Vec<Vec<u8>> = Vec::new();
    let mut total: usize = 0;
    let mut k: usize = 0;
    assert(labels.take(0) =~= Seq::<Seq<char>>::empty());
    while k < parts.len()
        invariant
            char_parts(parts@) == labels,
            labels == split_on(body@, '.'),
            body@ == name_body(t@),
            t@.len() > 0,
            t@ != seq!['.'],
            fqdn == (t@.last() == '.'),
            k <= parts@.len(),
            forall|j: int| 0 <= j < k ==> valid_label(#[trigger] labels[j]),
            total == labels_wire_len(labels.take(k as int)),
            total <= 254,
            labels_view(out@) == labels.take(k as int).map_values(|l: Seq<char>| label_bytes(l)),
        decreases parts@.len() - k,
    {
        let part = &parts[k];
        assert(part@ == labels[k as int]);
        if part.len() == 0 || part.len() > 63 {
            proof {
                lemma_invalid_label_rejects(t@, k as int);
            }
            return Err(NameError);
        }
        let mut bytes: Vec<u8> = Vec::new();
        let mut m: usize = 0;
        while m < part.len()
            invariant
                part@ == labels[k as int],
                labels == split_on(name_body(t@), '.'),
                t@.len() > 0,
                t@ != seq!['.'],
                k < labels.len(),
                m <= part@.len(),
                forall|j: int| 0 <= j < m ==> is_label_char(#[trigger] part@[j], j == 0),
                bytes@ == label_bytes(part@.take(m as int)),
            decreases part@.len() - m,
        {
            let c: char = part[m];
            if !is_label_char_exec(c, m == 0) {
                proof {
                    assert(!valid_label(labels[k as int]));
                    lemma_invalid_label_rejects(t@, k as int);
                }
                return Err(NameError);
            }
            bytes.push(c as u8);
            proof {
                assert(label_bytes(part@.take(m + 1)) =~= label_bytes(part@.take(m as int)).push(
                    c as u8,
                ));
            }
            m = m + 1;
        }
        proof {
            assert(part@.take(m as int) =~= part@);
            assert(labels.take(k + 1).drop_last() =~= labels.take(k as int));
        }
        if part.len() + 1 > 254 - total {
            proof {
                lemma_wire_len_prefix(labels, k + 1);
            }
            return Err(NameError);
        }
        total = total + part.len() + 1;
        let ghost out_before = out@;
        out.push(bytes);
        proof {
            assert(labels_view(out@) =~= labels_view(out_before).push(label_bytes(labels[k as int])));
            assert(labels.take(k + 1).map_values(|l: Seq<char>| label_bytes(l)) =~= labels.take(
                k as int,
            ).map_values(|l: Seq<char>| label_bytes(l)).push(label_bytes(labels[k as int])));
        }
        k = k + 1;
    }
    proof {
        assert(labels.take(k as int) =~= labels);
    }
    Ok(Name { labels: out, fqdn })
}

/// A domain name: its labels from the leftmost (most specific) to the
/// rightmost, and whether it is fully qualified.
#[derive(Debug)]
pub struct Name {
    labels: Vec<Vec<u8>>,
    fqdn: bool,
}

impl View for Name {
    type V = Seq<Seq<u8>>;

    closed spec fn view(&self) -> Seq<Seq<u8>> {
        labels_view(self.labels@)
    }
}

impl Name {
    /// Whether the name is fully qualified.
    pub closed spec fn spec_is_fqdn(&self) -> bool {
        self.fqdn
    }

    /// The root name: no labels, fully qualified.
    pub fn root() -> (r: Name)
        ensures
            r@ == Seq::<Seq<u8>>::empty(),
            r.spec_is_fqdn(),
    {
        let r = Name { labels: Vec::new(), fqdn: true };
        assert(r@ =~= Seq::<Seq<u8>>::empty());
        r
    }

    /// A name made of the given labels.
    pub fn from_labels(labels: Vec<Vec<u8>>, fqdn: bool) -> (r: Name)
        ensures
            r@ == labels_view(labels@),
            r.spec_is_fqdn() == fqdn,
    {
        Name { labels, fqdn }
    }

    /// Parses a domain name in text form (see `parse_name_spec`).
    pub fn from_ascii(s: &str) -> (r: Result<Name, NameError>)
        ensures
            match parse_name_spec(s@) {
                Some((labels, fqdn)) => r matches Ok(n) && n@ == labels && n.spec_is_fqdn() == fqdn,
                None => r is Err,
            },
    {
        let chars = chars_of(s);
        parse_name_chars(&chars)
    }

    /// Whether the name is fully qualified.
    pub fn is_fqdn(&self) -> (r: bool)
        ensures
            r == self.spec_is_fqdn(),
    {
        self.fqdn
    }

    /// Marks the name as fully qualified or not; its labels stay.
    pub fn set_fqdn(&mut self, fqdn: bool)
        ensures
            final(self)@ == old(self)@,
            final(self).spec_is_fqdn() == fqdn,
    {
        self.fqdn = fqdn;
    }

    /// Number of labels.
    pub fn num_labels(&self) -> (r: usize)
        ensures
            r == self@.len(),
    {
        self.labels.len()
    }
}

/// The modulus of name hashes: the prime 2^61 - 1.
pub open spec fn hash_modulus() -> nat {
    0x1FFF_FFFF_FFFF_FFFF
}

/// One step of a name hash: the hash so far, then one symbol (a byte plus
/// one, or 256 for the end of a label).
pub open spec fn hash_step(h: nat, symbol: nat) -> nat {
    (h * 257 + symbol + 1) % hash_modulus()
}

/// The hash `h` carried over the bytes of a label.
pub open spec fn bytes_hash(h: nat, bytes: Seq<u8>) -> nat
    decreases bytes.len(),
{
    if bytes.len() == 0 {
        h
    } else {
        hash_step(bytes_hash(h, bytes.drop_last()), bytes.last() as nat)
    }
}

/// A hash of a name given as its labels: the labels' bytes in order, each
/// label closed by an end mark. Equal names hash equally.
pub open spec fn labels_hash(labels: Seq<Seq<u8>>) -> nat
    decreases labels.len(),
{
    if labels.len() == 0 {
        0
    } else {
        hash_step(bytes_hash(labels_hash(labels.drop_last()), labels.last()), 256)
    }
}

fn hash_step_exec(h: u64, symbol: u64) -> (r: u64)
    requires
        h < hash_modulus(),
        symbol <= 256,
    ensures
        r == hash_step(h as nat, symbol as nat),
        r < hash_modulus(),
{
    assert(h * 257 + symbol + 1 < 0x1_0000_0000_0000_0000_0000) by (nonlinear_arith)
        requires
            h < 0x1FFF_FFFF_FFFF_FFFF,
            symbol <= 256,
    ;
    let v: u128 = (h as u128) * 257 + symbol as u128 + 1;
    let m: u128 = 0x1FFF_FFFF_FFFF_FFFF;
    (v % m) as u64
}

/// A domain name with its labels in ASCII lower case, as names are compared.
#[derive(Debug)]
pub struct LowerName {
    labels: Vec<Vec<u8>>,
}

impl View for LowerName {
    type V = Seq<Seq<u8>>;

    closed spec fn view(&self) -> Seq<Seq<u8>> {
        labels_view(self.labels@)
    }
}

fn copy_bytes(l: &Vec<u8>) -> (r: Vec<u8>)
    ensures
        r@ == l@,
{
    let mut out: Vec<u8> = Vec::new();
    let mut i: usize = 0;
    while i < l.len()
        invariant
            i <= l@.len(),
            out@ == l@.subrange(0, i as int),
        decreases l@.len() - i,
    {
        out.push(l[i]);
        proof {
            assert(l@.subrange(0, i + 1) =~= l@.subrange(0, i as int).push(l@[i as int]));
        }
        i = i + 1;
    }
    assert(l@.subrange(0, l@.len() as int) =~= l@);
    out
}

fn lower_copy(l: &Vec<u8>) -> (r: Vec<u8>)
    ensures
        r@ == lower_label(l@),
{
    let mut out: Vec<u8> = Vec::new();
    let mut i: usize = 0;
    while i < l.len()
        invariant
            i <= l@.len(),
            out@ == l@.subrange(0, i as int).map_values(|b: u8| lower_byte(b)),
        decreases l@.len() - i,
    {
        let b: u8 = l[i];
        let c: u8 = if 0x41 <= b && b <= 0x5A {
            b + 32
        } else {
            b
        };
        out.push(c);
        proof {
            assert(l@.subrange(0, i + 1).map_values(|b: u8| lower_byte(b)) =~= l@.subrange(
                0,
                i as int,
            ).map_values(|b: u8| lower_byte(b)).push(lower_byte(b)));
        }
        i = i + 1;
    }
    assert(l@.subrange(0, l@.len() as int) =~= l@);
    out
}

impl LowerName {
    /// The lower-case form of a name.
    pub fn new(name: &Name) -> (r: LowerName)
        ensures
            r@ == lower_labels(name@),
    {
        let mut labels: Vec<Vec<u8>> = Vec::new();
        let mut i: usize = 0;
        while i < name.labels.len()
            invariant
                i <= name.labels@.len(),
                labels@.len() == i,
                forall|j: int| 0 <= j < i ==> #[trigger] labels@[j]@ == lower_label(name.labels@[j]@),
            decreases name.labels@.len() - i,
        {
            labels.push(lower_copy(&name.labels[i]));
            i = i + 1;
        }
        let r = LowerName { labels };
        assert(r@ =~= lower_labels(name@));
        r
    }

    /// A copy of the name.
    pub fn duplicate(&self) -> (r: LowerName)
        ensures
            r@ == self@,
    {
        let mut labels: Vec<Vec<u8>> = Vec::new();
        let mut i: usize = 0;
        while i < self.labels.len()
            invariant
                i <= self.labels@.len(),
                labels@.len() == i,
                forall|j: int| 0 <= j < i ==> #[trigger] labels@[j]@ == self.labels@[j]@,
            decreases self.labels@.len() - i,
        {
            labels.push(copy_bytes(&self.labels[i]));
            i = i + 1;
        }
        let r = LowerName { labels };
        assert(r@ =~= self@);
        r
    }

    /// The hash of this name without its first `k` labels.
    pub fn suffix_hash(&self, k: usize) -> (r: u64)
        requires
            k <= self@.len(),
        ensures
            r == labels_hash(self@.skip(k as int)),
            r < hash_modulus(),
    {
        let n: usize = self.labels.len();
        let mut h: u64 = 0;
        let mut i: usize = k;
        proof {
            assert(self@.subrange(k as int, k as int) =~= Seq::<Seq<u8>>::empty());
        }
        while i < n
            invariant
                n == self@.len(),
                n == self.labels@.len(),
                k <= i <= n,
                h == labels_hash(self@.subrange(k as int, i as int)),
                h < hash_modulus(),
            decreases n - i,
        {
            let label = &self.labels[i];
            assert(label@ == self@[i as int]);
            let ghost start = h as nat;
            let mut j: usize = 0;
            proof {
                assert(label@.subrange(0, 0) =~= Seq::<u8>::empty());
            }
            while j < label.len()
                invariant
                    j <= label@.len(),
                    h == bytes_hash(start, label@.subrange(0, j as int)),
                    h < hash_modulus(),
                decreases label@.len() - j,
            {
                let b: u8 = label[j];
                proof {
                    assert(label@.subrange(0, j + 1).drop_last() =~= label@.subrange(0, j as int));
                }
                h = hash_step_exec(h, b as u64);
                j = j + 1;
            }
            proof {
                assert(label@.subrange(0, j as int) =~= label@);
                let sub = self@.subrange(k as int, i + 1);
                assert(sub.drop_last() =~= self@.subrange(k as int, i as int));
                assert(sub.last() == self@[i as int]);
            }
            h = hash_step_exec(h, 256);
            i = i + 1;
        }
        proof {
            assert(self@.subrange(k as int, n as int) =~= self@.skip(k as int));
        }
        h
    }

    /// Whether this is the root name.
    pub fn is_root(&self) -> (r: bool)
        ensures
            r == (self@.len() == 0),
    {
        self.labels.len() == 0
    }

    /// Number of labels.
    pub fn num_labels(&self) -> (r: usize)
        ensures
            r == self@.len(),
    {
        self.labels.len()
    }

    /// Whether this name equals `name` without its first `k` labels.
    pub fn equals_suffix_of(&self, name: &LowerName, k: usize) -> (r: bool)
        requires
            k <= name@.len(),
        ensures
            r == (self@ == name@.skip(k as int)),
    {
        assert(name@.len() == name.labels@.len());
        let n: usize = name.labels.len();
        if self.labels.len() != n - k {
            assert(self@.len() != name@.skip(k as int).len());
            return false;
        }
        let mut i: usize = 0;
        while i < self.labels.len()
            invariant
                self.labels@.len() == name.labels@.len() - k,
                self@.len() == self.labels@.len(),
                name@.len() == name.labels@.len(),
                n == name.labels@.len(),
                k <= name.labels@.len(),
                i <= self.labels@.len(),
                forall|j: int| 0 <= j < i ==> self@[j] == name@.skip(k as int)[j],
            decreases self.labels@.len() - i,
        {
            assert(k + i < name.labels@.len());
            let a = &self.labels[i];
            let b = &name.labels[k + i];
            assert(self@[i as int] == a@);
            assert(name@.skip(k as int)[i as int] == b@);
            if a.len() != b.len() {
                assert(self@[i as int] != name@.skip(k as int)[i as int]);
                return false;
            }
            let mut m: usize = 0;
            while m < a.len()
                invariant
                    a@.len() == b@.len(),
                    i < self@.len(),
                    self@[i as int] == a@,
                    name@.skip(k as int)[i as int] == b@,
                    m <= a@.len(),
                    forall|j: int| 0 <= j < m ==> a@[j] == b@[j],
                decreases a@.len() - m,
            {
                if a[m] != b[m] {
                    assert(a@ != b@);
                    return false;
                }
                m = m + 1;
            }
            assert(a@ =~= b@);
            i = i + 1;
        }
        assert(self@ =~= name@.skip(k as int));
        true
    }
}

} // verus!
