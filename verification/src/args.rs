//! Device arguments: the `key=value` pairs that identify one device, and the
//! filters that select among devices.

use vstd::prelude::*;
use vstd::string::{StrSliceExecFns, StringExecFns};

verus! {

/// Text as the contracts see it.
pub type Text = Seq<char>;

/// The mathematical value of a [`DeviceArgs`]: its pairs in their order.
pub type Pairs = Seq<(Text, Text)>;

/// Some pair of `s` has the key `k`.
pub open spec fn has_key(s: Pairs, k: Text) -> bool {
    exists|i: int| 0 <= i < s.len() && (#[trigger] s[i]).0 == k
}

/// `s` holds the pair of `k` and `v`.
pub open spec fn has_pair(s: Pairs, k: Text, v: Text) -> bool {
    exists|i: int| 0 <= i < s.len() && #[trigger] s[i] == (k, v)
}

/// No key occurs twice.
pub open spec fn distinct_keys(s: Pairs) -> bool {
    forall|i: int, j: int| 0 <= i < j < s.len() ==> (#[trigger] s[i]).0 != (#[trigger] s[j]).0
}

/// Where the key `k` stands in `s`.
pub open spec fn key_index(s: Pairs, k: Text) -> int {
    choose|i: int| 0 <= i < s.len() && (#[trigger] s[i]).0 == k
}

/// `s` after `k` was set to `v`: the value replaced where the key was there,
/// the pair added at the end where it was not.
pub open spec fn with_pair(s: Pairs, k: Text, v: Text) -> Pairs {
    if has_key(s, k) {
        s.update(key_index(s, k), (k, v))
    } else {
        s.push((k, v))
    }
}

/// Every pair of `filter` is a pair of `s`: each key of the filter is
/// present with an equal value. An empty filter is met by everything.
pub open spec fn includes(s: Pairs, filter: Pairs) -> bool {
    forall|j: int| 0 <= j < filter.len() ==> has_pair(s, (#[trigger] filter[j]).0, filter[j].1)
}

/// Both hold the same pairs, in whatever order.
pub open spec fn same_pairs(a: Pairs, b: Pairs) -> bool {
    includes(a, b) && includes(b, a)
}

/// A blank: a space, a tab, a line feed or a carriage return.
pub open spec fn is_blank(c: char) -> bool {
    c == ' ' || c == '\t' || c == '\n' || c == '\r'
}

/// `s[a..b]` is `s` without its leading and trailing blanks.
pub open spec fn is_trim_of(s: Text, a: int, b: int) -> bool {
    &&& 0 <= a <= b <= s.len()
    &&& forall|j: int| 0 <= j < a ==> is_blank(#[trigger] s[j])
    &&& forall|j: int| b <= j < s.len() ==> is_blank(#[trigger] s[j])
    &&& a < b ==> !is_blank(s[a]) && !is_blank(s[b - 1])
}

/// `s` without its leading and trailing blanks.
pub open spec fn trimmed(s: Text) -> Text {
    let (a, b) = choose|a: int, b: int| is_trim_of(s, a, b);
    s.subrange(a, b)
}

/// `c` stands at `at` in `s` and nowhere before.
pub open spec fn is_first(s: Text, c: char, at: int) -> bool {
    &&& 0 <= at < s.len()
    &&& s[at] == c
    &&& forall|j: int| 0 <= j < at ==> #[trigger] s[j] != c
}

/// `c` stands at `at` in `s` and nowhere after.
pub open spec fn is_last(s: Text, c: char, at: int) -> bool {
    &&& 0 <= at < s.len()
    &&& s[at] == c
    &&& forall|j: int| at < j < s.len() ==> #[trigger] s[j] != c
}

/// `pairs` after one segment of an argument text was read: the part before
/// the segment's first `=` is the key, the part after it the value, both
/// without the blanks around them. A segment without `=` changes nothing.
pub open spec fn apply_segment(pairs: Pairs, segment: Text) -> Pairs {
    if segment.contains('=') {
        let e = choose|e: int| is_first(segment, '=', e);
        with_pair(
            pairs,
            trimmed(segment.subrange(0, e)),
            trimmed(segment.subrange(e + 1, segment.len() as int)),
        )
    } else {
        pairs
    }
}

/// The pairs that an argument text stands for: its segments, which commas
/// separate, read from left to right, a later value of a key replacing an
/// earlier one.
pub open spec fn parsed(s: Text) -> Pairs
    decreases s.len(),
{
    if s.contains(',') {
        let c = choose|c: int| is_last(s, ',', c);
        if 0 <= c < s.len() {
            apply_segment(parsed(s.subrange(0, c)), s.subrange(c + 1, s.len() as int))
        } else {
            Pairs::empty()
        }
    } else {
        apply_segment(Pairs::empty(), s)
    }
}

/// The text that pairs are shown as: `key=value`, one after the other with
/// a comma and a space between them.
pub open spec fn rendered(pairs: Pairs) -> Text
    decreases pairs.len(),
{
    if pairs.len() == 0 {
        Seq::empty()
    } else if pairs.len() == 1 {
        pairs[0].0 + "="@ + pairs[0].1
    } else {
        rendered(pairs.drop_last()) + ", "@ + pairs.last().0 + "="@ + pairs.last().1
    }
}

/// Two ways to trim a text give the same text.
proof fn lemma_trim_unique(s: Text, a: int, b: int)
    requires
        is_trim_of(s, a, b),
    ensures
        trimmed(s) == s.subrange(a, b),
{
    let (a2, b2) = choose|a2: int, b2: int| is_trim_of(s, a2, b2);
    assert(is_trim_of(s, a2, b2));
    if a < b {
        assert(!is_blank(s[a]) && !is_blank(s[b - 1]));
        assert(a2 <= a);
        assert(b <= b2);
        assert(a2 < b2);
        assert(!is_blank(s[a2]) && !is_blank(s[b2 - 1]));
        assert(a <= a2);
        assert(b2 <= b);
    } else {
        if a2 < b2 {
            assert(!is_blank(s[a2]));
            assert(false);
        }
        assert(s.subrange(a, b) =~= s.subrange(a2, b2));
    }
}

/// What the text up to the end of a segment stands for, given what the
/// text before the segment stands for.
proof fn lemma_parsed_step(s: Text, start: int, end: int)
    requires
        0 <= start <= end <= s.len(),
        start > 0 ==> s[start - 1] == ',',
        forall|j: int| start <= j < end ==> s[j] != ',',
    ensures
        parsed(s.subrange(0, end)) == apply_segment(
            if start == 0 {
                Pairs::empty()
            } else {
                parsed(s.subrange(0, start - 1))
            },
            s.subrange(start, end),
        ),
{
    let t = s.subrange(0, end);
    if start == 0 {
        assert(t =~= s.subrange(start, end));
        assert(!t.contains(','));
    } else {
        assert(t[start - 1] == ',');
        assert(is_last(t, ',', start - 1));
        let c = choose|c: int| is_last(t, ',', c);
        assert(is_last(t, ',', c));
        assert(c == start - 1) by {
            if c < start - 1 {
                assert(t[start - 1] != ',');
            } else if c > start - 1 {
                assert(t[c] == s[c]);
            }
        }
        assert(t.subrange(0, c) =~= s.subrange(0, start - 1));
        assert(t.subrange(c + 1, t.len() as int) =~= s.subrange(start, end));
    }
}

/// A text that stands for itself in an argument text: no comma, no blank at
/// either end, and, for a key, no equals sign.
pub open spec fn plain_text(t: Text, is_key: bool) -> bool {
    &&& !t.contains(',')
    &&& is_key ==> !t.contains('=')
    &&& t.len() > 0 ==> !is_blank(t[0]) && !is_blank(t.last())
}

/// Pairs that an argument text can carry: distinct keys, plain keys and
/// values.
pub open spec fn plain_pairs(pairs: Pairs) -> bool {
    &&& distinct_keys(pairs)
    &&& forall|i: int|
        0 <= i < pairs.len() ==> plain_text((#[trigger] pairs[i]).0, true) && plain_text(
            pairs[i].1,
            false,
        )
}

/// A segment `lead + key + "=" + value`, `lead` being nothing or one space,
/// sets the key to the value.
proof fn lemma_segment_sets(pairs: Pairs, lead: Text, key: Text, value: Text)
    requires
        lead.len() == 0 || (lead.len() == 1 && lead[0] == ' '),
        plain_text(key, true),
        plain_text(value, false),
    ensures
        apply_segment(pairs, lead + key + "="@ + value) == with_pair(pairs, key, value),
        !(lead + key + "="@ + value).contains(','),
{
    reveal_strlit("=");
    let segment = lead + key + "="@ + value;
    let at = (lead.len() + key.len()) as int;
    assert(segment.len() == at + 1 + value.len());
    assert(segment[at] == '=');
    assert forall|j: int| 0 <= j < segment.len() implies segment[j] != ',' by {
        if j < lead.len() {
            assert(segment[j] == lead[j]);
        } else if j < at {
            assert(segment[j] == key[j - lead.len()]);
        } else if j > at {
            assert(segment[j] == value[j - at - 1]);
        }
    }
    assert forall|j: int| 0 <= j < at implies #[trigger] segment[j] != '=' by {
        if j < lead.len() {
            assert(segment[j] == lead[j]);
        } else {
            assert(segment[j] == key[j - lead.len()]);
        }
    }
    assert(is_first(segment, '=', at));
    let e = choose|e: int| is_first(segment, '=', e);
    assert(is_first(segment, '=', e));
    assert(e == at) by {
        if e < at {
            assert(segment[e] != '=');
        } else if e > at {
            assert(segment[at] != '=');
        }
    }
    let left = segment.subrange(0, e);
    let right = segment.subrange(e + 1, segment.len() as int);
    assert(left =~= lead + key);
    assert(right =~= value);
    assert(is_trim_of(left, lead.len() as int, left.len() as int)) by {
        if key.len() > 0 {
            assert(left[lead.len() as int] == key[0]);
            assert(left[left.len() - 1] == key.last());
        }
    }
    lemma_trim_unique(left, lead.len() as int, left.len() as int);
    assert(left.subrange(lead.len() as int, left.len() as int) =~= key);
    assert(is_trim_of(right, 0, right.len() as int));
    lemma_trim_unique(right, 0, right.len() as int);
    assert(right.subrange(0, right.len() as int) =~= value);
}

/// What `render` writes, `parse` reads back: pairs with distinct, plain keys
/// and plain values come out of the text that shows them, pair for pair and
/// in their order.
pub proof fn lemma_parse_reads_render(pairs: Pairs)
    requires
        plain_pairs(pairs),
    ensures
        parsed(rendered(pairs)) == pairs,
        pairs.len() <= 1 ==> !rendered(pairs).contains(','),
    decreases pairs.len(),
{
    let text = rendered(pairs);
    if pairs.len() == 0 {
        assert(parsed(text) =~= pairs);
    } else if pairs.len() == 1 {
        let none: Text = Seq::empty();
        assert(text =~= none + pairs[0].0 + "="@ + pairs[0].1);
        lemma_segment_sets(Pairs::empty(), none, pairs[0].0, pairs[0].1);
        assert(!has_key(Pairs::empty(), pairs[0].0));
        assert(parsed(text) =~= pairs);
    } else {
        reveal_strlit(", ");
        let init = pairs.drop_last();
        let (key, value) = pairs.last();
        let shown = rendered(init);
        let c = shown.len() as int;
        let lead = seq![' '];
        let segment = lead + key + "="@ + value;
        assert(pairs.last() == pairs[pairs.len() - 1]);
        assert forall|i: int| 0 <= i < init.len() implies plain_text((#[trigger] init[i]).0, true)
            && plain_text(init[i].1, false) by {
            assert(init[i] == pairs[i]);
        }
        assert(distinct_keys(init)) by {
            assert forall|i: int, j: int| 0 <= i < j < init.len() implies (#[trigger] init[i]).0 != (
            #[trigger] init[j]).0 by {
                assert(init[i] == pairs[i] && init[j] == pairs[j]);
            }
        }
        lemma_parse_reads_render(init);
        lemma_segment_sets(init, lead, key, value);
        assert(", "@.len() == 2 && ", "@[0] == ',' && ", "@[1] == ' ');
        assert(text =~= shown + seq![','] + segment);
        assert(text[c] == ',');
        assert forall|j: int| c < j < text.len() implies #[trigger] text[j] != ',' by {
            assert(text[j] == segment[j - c - 1]);
        }
        assert(is_last(text, ',', c));
        let found = choose|found: int| is_last(text, ',', found);
        assert(is_last(text, ',', found));
        assert(found == c) by {
            if found < c {
                assert(text[c] != ',');
            } else if found > c {
                assert(text[found] != ',');
            }
        }
        assert(text.subrange(0, c) =~= shown);
        assert(text.subrange(c + 1, text.len() as int) =~= segment);
        assert(!has_key(init, key)) by {
            if has_key(init, key) {
                let i = choose|i: int| 0 <= i < init.len() && (#[trigger] init[i]).0 == key;
                assert(init[i] == pairs[i]);
                assert(pairs[i].0 != pairs[pairs.len() - 1].0);
            }
        }
        assert(init.push((key, value)) =~= pairs);
    }
}

/// One `key=value` pair.
#[derive(Debug)]
struct ArgPair {
    key: String,
    value: String,
}

/// An ordered mapping of keys to values, no key twice.
#[derive(Debug)]
pub struct DeviceArgs {
    pairs: Vec<ArgPair>,
}

impl View for DeviceArgs {
    type V = Pairs;

    closed spec fn view(&self) -> Pairs {
        Seq::new(self.pairs@.len(), |i: int| (self.pairs@[i].key@, self.pairs@[i].value@))
    }
}

impl Clone for DeviceArgs {
    fn clone(&self) -> (copy: Self)
        ensures
            copy@ == self@,
    {
        proof {
            use_type_invariant(self);
        }
        let mut pairs: Vec<ArgPair> = Vec::new();
        let mut i: usize = 0;
        while i < self.pairs.len()
            invariant
                i <= self.pairs@.len(),
                pairs@.len() == i,
                forall|k: int|
                    0 <= k < i ==> (#[trigger] pairs@[k]).key@ == self.pairs@[k].key@ && pairs@[k].value@
                        == self.pairs@[k].value@,
            decreases self.pairs@.len() - i,
        {
            let pair = ArgPair { key: self.pairs[i].key.clone(), value: self.pairs[i].value.clone() };
            pairs.push(pair);
            i += 1;
        }
        assert(Seq::new(pairs@.len(), |i: int| (pairs@[i].key@, pairs@[i].value@)) =~= self@);
        DeviceArgs { pairs }
    }
}

/// Whether `c` is a blank.
fn blank(c: char) -> (b: bool)
    ensures
        b == is_blank(c),
{
    c == ' ' || c == '\t' || c == '\n' || c == '\r'
}

/// Where `c` first stands in `text[from..to]`; `to` where it does not.
fn find_char(text: &str, from: usize, to: usize, c: char) -> (at: usize)
    requires
        from <= to <= text@.len(),
    ensures
        from <= at <= to,
        at < to ==> text@[at as int] == c,
        forall|j: int| from <= j < at ==> text@[j] != c,
{
    let mut at: usize = from;
    while at < to
        invariant
            from <= at <= to <= text@.len(),
            forall|j: int| from <= j < at ==> text@[j] != c,
        decreases to - at,
    {
        if text.get_char(at) == c {
            return at;
        }
        at += 1;
    }
    at
}

/// The part of `text[from..to]` that is left without the blanks around it.
fn trim_bounds(text: &str, from: usize, to: usize) -> (ends: (usize, usize))
    requires
        from <= to <= text@.len(),
    ensures
        from <= ends.0 <= ends.1 <= to,
        is_trim_of(text@.subrange(from as int, to as int), ends.0 - from, ends.1 - from),
{
    let mut a: usize = from;
    while a < to && blank(text.get_char(a))
        invariant
            from <= a <= to <= text@.len(),
            forall|j: int| from <= j < a ==> is_blank(text@[j]),
        decreases to - a,
    {
        a += 1;
    }
    let mut b: usize = to;
    while b > a && blank(text.get_char(b - 1))
        invariant
            from <= a <= b <= to <= text@.len(),
            forall|j: int| b <= j < to ==> is_blank(text@[j]),
        decreases b - a,
    {
        b -= 1;
    }
    proof {
        let s = text@.subrange(from as int, to as int);
        assert forall|j: int| 0 <= j < a - from implies is_blank(#[trigger] s[j]) by {
            assert(is_blank(text@[from + j]));
        }
        assert forall|j: int| b - from <= j < s.len() implies is_blank(#[trigger] s[j]) by {
            assert(is_blank(text@[from + j]));
        }
        if a < b {
            assert(s[a - from] == text@[a as int]);
            assert(s[b - from - 1] == text@[b - 1]);
        }
    }
    (a, b)
}

impl Default for DeviceArgs {
    fn default() -> (args: Self)
        ensures
            args@ == Pairs::empty(),
    {
        DeviceArgs::new()
    }
}

impl DeviceArgs {
    #[verifier::type_invariant]
    spec fn inv(self) -> bool {
        distinct_keys(self@)
    }

    /// No pairs.
    pub fn new() -> (args: DeviceArgs)
        ensures
            args@ == Pairs::empty(),
    {
        let args = DeviceArgs { pairs: Vec::new() };
        assert(args@ =~= Pairs::empty());
        args
    }

    /// The number of pairs.
    pub fn len(&self) -> (n: usize)
        ensures
            n == self@.len(),
            distinct_keys(self@),
    {
        proof {
            use_type_invariant(self);
        }
        self.pairs.len()
    }

    /// The key and the value of the pair at `index`, `None` where there is
    /// no such pair.
    pub fn pair_at(&self, index: usize) -> (res: Option<(String, String)>)
        ensures
            res is Some <==> index < self@.len(),
            res matches Some(pair) ==> (pair.0@, pair.1@) == self@[index as int],
    {
        if index < self.pairs.len() {
            Some((self.pairs[index].key.clone(), self.pairs[index].value.clone()))
        } else {
            None
        }
    }

    /// Where `key` stands.
    fn find(&self, key: &String) -> (res: Option<usize>)
        ensures
            res is Some <==> has_key(self@, key@),
            res matches Some(i) ==> i < self@.len() && self@[i as int].0 == key@ && i == key_index(
                self@,
                key@,
            ),
    {
        proof {
            use_type_invariant(self);
        }
        let mut i: usize = 0;
        while i < self.pairs.len()
            invariant
                i <= self.pairs@.len(),
                distinct_keys(self@),
                forall|k: int| 0 <= k < i ==> (#[trigger] self@[k]).0 != key@,
            decreases self.pairs@.len() - i,
        {
            if self.pairs[i].key == *key {
                assert(self@[i as int].0 == key@);
                let ghost j = key_index(self@, key@);
                assert(j == i) by {
                    if i < j {
                        assert(self@[i as int].0 != self@[j].0);
                    }
                }
                return Some(i);
            }
            i += 1;
        }
        None
    }

    /// The value that `key` is set to.
    pub fn get(&self, key: &str) -> (res: Option<String>)
        ensures
            res is Some <==> has_key(self@, key@),
            res matches Some(v) ==> has_pair(self@, key@, v@),
            distinct_keys(self@),
    {
        proof {
            use_type_invariant(self);
        }
        let owned = key.to_owned();
        match self.find(&owned) {
            Some(i) => {
                let value = self.pairs[i].value.clone();
                assert(self@[i as int] == (key@, value@));
                Some(value)
            },
            None => None,
        }
    }

    /// Sets `key` to `value`: replaces the value where the key is there,
    /// adds the pair at the end where it is not.
    pub fn set(&mut self, key: &str, value: &str)
        ensures
            final(self)@ == with_pair(old(self)@, key@, value@),
            distinct_keys(final(self)@),
    {
        proof {
            use_type_invariant(&*self);
        }
        let k = key.to_owned();
        let v = value.to_owned();
        let ghost before = self@;
        match self.find(&k) {
            Some(i) => {
                let mut pairs: Vec<ArgPair> = Vec::new();
                assert(distinct_keys(Seq::new(0, |i: int| (pairs@[i].key@, pairs@[i].value@))));
                core::mem::swap(&mut self.pairs, &mut pairs);
                pairs.set(i, ArgPair { key: k, value: v });
                assert(Seq::new(pairs@.len(), |i: int| (pairs@[i].key@, pairs@[i].value@))
                    =~= before.update(i as int, (key@, value@)));
                core::mem::swap(&mut self.pairs, &mut pairs);
            },
            None => {
                let mut pairs: Vec<ArgPair> = Vec::new();
                assert(distinct_keys(Seq::new(0, |i: int| (pairs@[i].key@, pairs@[i].value@))));
                core::mem::swap(&mut self.pairs, &mut pairs);
                pairs.push(ArgPair { key: k, value: v });
                assert(Seq::new(pairs@.len(), |i: int| (pairs@[i].key@, pairs@[i].value@))
                    =~= before.push((key@, value@)));
                core::mem::swap(&mut self.pairs, &mut pairs);
            },
        }
    }

    /// Reads one segment of an argument text, `text[from..to]`.
    fn set_segment(&mut self, text: &str, from: usize, to: usize)
        requires
            from <= to <= text@.len(),
        ensures
            final(self)@ == apply_segment(old(self)@, text@.subrange(from as int, to as int)),
    {
        let ghost segment = text@.subrange(from as int, to as int);
        let eq = find_char(text, from, to, '=');
        if eq == to {
            assert(!segment.contains('=')) by {
                if segment.contains('=') {
                    let j = choose|j: int| 0 <= j < segment.len() && segment[j] == '=';
                    assert(text@[from + j] == '=');
                }
            }
            return ;
        }
        let (ka, kb) = trim_bounds(text, from, eq);
        let (va, vb) = trim_bounds(text, eq + 1, to);
        let key = text.substring_char(ka, kb);
        let value = text.substring_char(va, vb);
        proof {
            assert(segment[eq - from] == '=');
            assert(is_first(segment, '=', eq - from)) by {
                assert forall|j: int| 0 <= j < eq - from implies #[trigger] segment[j] != '=' by {
                    assert(text@[from + j] != '=');
                }
            }
            let e = choose|e: int| is_first(segment, '=', e);
            assert(is_first(segment, '=', e));
            assert(e == eq - from) by {
                if e < eq - from {
                    assert(segment[e] != '=');
                } else if e > eq - from {
                    assert(segment[eq - from] != '=');
                }
            }
            let left = segment.subrange(0, e);
            let right = segment.subrange(e + 1, segment.len() as int);
            assert(left =~= text@.subrange(from as int, eq as int));
            assert(right =~= text@.subrange(eq + 1, to as int));
            lemma_trim_unique(left, ka - from, kb - from);
            lemma_trim_unique(right, va - (eq + 1), vb - (eq + 1));
            assert(left.subrange(ka - from, kb - from) =~= text@.subrange(ka as int, kb as int));
            assert(right.subrange(va - (eq + 1), vb - (eq + 1)) =~= text@.subrange(
                va as int,
                vb as int,
            ));
        }
        self.set(key, value);
    }

    /// Reads an argument text: `key=value` segments separated by commas,
    /// blanks around keys and values dropped, segments without `=` skipped,
    /// a later value of a key replacing an earlier one. The empty text gives
    /// no pairs.
    pub fn parse(text: &str) -> (args: DeviceArgs)
        ensures
            args@ == parsed(text@),
            distinct_keys(args@),
    {
        let n = text.unicode_len();
        let mut args = DeviceArgs::new();
        let mut start: usize = 0;
        loop
            invariant_except_break
                start == 0 ==> args@ == Pairs::empty(),
                start > 0 ==> text@[start - 1] == ',' && args@ == parsed(
                    text@.subrange(0, start - 1),
                ),
            invariant
                start <= n,
                n == text@.len(),
            ensures
                args@ == parsed(text@),
            decreases n - start,
        {
            let end = find_char(text, start, n, ',');
            args.set_segment(text, start, end);
            proof {
                lemma_parsed_step(text@, start as int, end as int);
            }
            if end == n {
                assert(text@.subrange(0, end as int) =~= text@);
                break ;
            }
            start = end + 1;
        }
        proof {
            use_type_invariant(&args);
        }
        args
    }

    /// Shows the pairs as one text that `parse` reads back: `key=value`,
    /// one after the other with a comma and a space between them.
    pub fn render(&self) -> (text: String)
        ensures
            text@ == rendered(self@),
    {
        let mut text = String::new();
        let mut i: usize = 0;
        while i < self.pairs.len()
            invariant
                i <= self.pairs@.len(),
                text@ == rendered(self@.take(i as int)),
            decreases self.pairs@.len() - i,
        {
            let ghost shown = text@;
            if i > 0 {
                text.append(", ");
            }
            text.append(self.pairs[i].key.as_str());
            text.append("=");
            text.append(self.pairs[i].value.as_str());
            proof {
                let grown = self@.take(i + 1);
                assert(grown.drop_last() =~= self@.take(i as int));
                assert(grown.last() == self@[i as int]);
                if i == 0 {
                    assert(shown =~= Seq::<char>::empty());
                    assert(text@ =~= grown[0].0 + "="@ + grown[0].1);
                } else {
                    assert(text@ =~= shown + ", "@ + grown.last().0 + "="@ + grown.last().1);
                }
            }
            i += 1;
        }
        assert(self@.take(i as int) =~= self@);
        text
    }

    /// Whether the pair of `key` and `value` is held.
    fn holds(&self, key: &String, value: &String) -> (b: bool)
        ensures
            b == has_pair(self@, key@, value@),
    {
        match self.find(key) {
            Some(i) => {
                let same = self.pairs[i].value == *value;
                proof {
                    use_type_invariant(self);
                    if same {
                        assert(self@[i as int] == (key@, value@));
                    } else if has_pair(self@, key@, value@) {
                        let j = choose|j: int| 0 <= j < self@.len() && #[trigger] self@[j] == (key@, value@);
                        if j < i {
                            assert(self@[j].0 != self@[i as int].0);
                        } else if i < j {
                            assert(self@[i as int].0 != self@[j].0);
                        }
                    }
                }
                same
            },
            None => {
                proof {
                    if has_pair(self@, key@, value@) {
                        let j = choose|j: int| 0 <= j < self@.len() && #[trigger] self@[j] == (key@, value@);
                        assert(self@[j].0 == key@);
                    }
                }
                false
            },
        }
    }

    /// Whether these arguments meet `filter`: whether every key of the filter
    /// is present here with an equal value. An empty filter is met by all.
    pub fn matches(&self, filter: &DeviceArgs) -> (b: bool)
        ensures
            b == includes(self@, filter@),
    {
        let mut j: usize = 0;
        while j < filter.pairs.len()
            invariant
                j <= filter.pairs@.len(),
                forall|k: int| 0 <= k < j ==> has_pair(self@, (#[trigger] filter@[k]).0, filter@[k].1),
            decreases filter.pairs@.len() - j,
        {
            if !self.holds(&filter.pairs[j].key, &filter.pairs[j].value) {
                assert(!has_pair(self@, filter@[j as int].0, filter@[j as int].1));
                return false;
            }
            j += 1;
        }
        true
    }

    /// Whether both hold the same pairs. The order of the pairs does not
    /// count.
    pub fn same_as(&self, other: &DeviceArgs) -> (b: bool)
        ensures
            b == same_pairs(self@, other@),
    {
        self.matches(other) && other.matches(self)
    }
}

} // verus!
