//! Hierarchical topic names and wildcard patterns, with matching.
//!
//! A [`Topic`] is an ordered sequence of non-empty literal segments; a
//! [`Pattern`] is an ordered sequence of segment matchers: a literal,
//! `*` (exactly one segment) or `**` (zero or more segments, at most one
//! per pattern). Both are written as strings with `/` between segments.

use vstd::prelude::*;
use vstd::string::*;

use crate::errors::NodeError;

verus! {

/// The segments of a string, cut at every `/`. A string with no `/` is a
/// single segment; each separator starts a new (possibly empty) segment,
/// so the result always holds at least one segment.
pub open spec fn spec_split(s: Seq<char>) -> Seq<Seq<char>>
    decreases s.len(),
{
    if s.len() == 0 {
        seq![Seq::<char>::empty()]
    } else if s[0] == '/' {
        seq![Seq::<char>::empty()] + spec_split(s.drop_first())
    } else {
        let rest = spec_split(s.drop_first());
        seq![seq![s[0]] + rest[0]] + rest.drop_first()
    }
}

pub proof fn lemma_split_len(s: Seq<char>)
    ensures
        spec_split(s).len() >= 1,
    decreases s.len(),
{
    if s.len() != 0 {
        lemma_split_len(s.drop_first());
    }
}

/// A string without separators is one single segment.
pub proof fn lemma_split_no_slash(s: Seq<char>)
    requires
        forall|k: int| 0 <= k < s.len() ==> s[k] != '/',
    ensures
        spec_split(s) =~~= seq![s],
    decreases s.len(),
{
    if s.len() == 0 {
        assert(spec_split(s) =~~= seq![s]);
    } else {
        lemma_split_no_slash(s.drop_first());
        assert(seq![s[0]] + s.drop_first() =~= s);
        assert(spec_split(s) =~~= seq![s]);
    }
}

/// Splitting cuts at the first separator: a separator-free prefix is the
/// first segment, and the rest splits on its own.
pub proof fn lemma_split_at_slash(pre: Seq<char>, rest: Seq<char>)
    requires
        forall|k: int| 0 <= k < pre.len() ==> pre[k] != '/',
    ensures
        spec_split(pre + seq!['/'] + rest) =~~= seq![pre] + spec_split(rest),
    decreases pre.len(),
{
    let s = pre + seq!['/'] + rest;
    if pre.len() == 0 {
        assert(s[0] == '/');
        assert(s.drop_first() =~= rest);
        assert(spec_split(s) =~~= seq![pre] + spec_split(rest));
    } else {
        assert(s[0] == pre[0]);
        assert(s[0] != '/');
        assert(s.drop_first() =~= pre.drop_first() + seq!['/'] + rest);
        lemma_split_at_slash(pre.drop_first(), rest);
        let inner = seq![pre.drop_first()] + spec_split(rest);
        assert(spec_split(s.drop_first()) =~~= inner);
        lemma_split_len(rest);
        assert(inner[0] == pre.drop_first());
        assert(seq![s[0]] + inner[0] =~= pre);
        assert(inner.drop_first() =~= spec_split(rest));
        assert(spec_split(s) =~~= seq![pre] + spec_split(rest));
    }
}

/// The segments a topic or pattern string denotes: none for the empty
/// string, else the string cut at every separator.
pub open spec fn spec_segments(s: Seq<char>) -> Seq<Seq<char>> {
    if s.len() == 0 {
        Seq::empty()
    } else {
        spec_split(s)
    }
}

/// A string is acceptable as a topic: every segment it denotes is
/// non-empty and free of separators and wildcard characters.
pub open spec fn topic_str_ok(s: Seq<char>) -> bool {
    forall|j: int| 0 <= j < spec_segments(s).len() ==> topic_seg_ok(#[trigger] spec_segments(s)[j])
}

/// One segment matcher of a pattern.
#[derive(Debug)]
pub enum PatSeg {
    /// Matches exactly the segment with this text.
    Lit(String),
    /// Matches exactly one segment, of any text.
    Star,
    /// Matches zero or more segments, of any text.
    DStar,
}

/// A concrete topic: the identifier a sample or query is addressed to.
#[derive(Debug)]
pub struct Topic {
    segs: Vec<String>,
}

/// A wildcard-capable matcher over topics, fixed when an interest is
/// declared.
#[derive(Debug)]
pub struct Pattern {
    segs: Vec<PatSeg>,
}

impl View for Topic {
    type V = Seq<Seq<char>>;

    closed spec fn view(&self) -> Seq<Seq<char>> {
        self.segs@.map_values(|s: String| s@)
    }
}

impl View for Pattern {
    type V = Seq<PatSeg>;

    closed spec fn view(&self) -> Seq<PatSeg> {
        self.segs@
    }
}

/// A well-formed topic segment: non-empty, no separator, no wildcard token.
pub open spec fn topic_seg_ok(seg: Seq<char>) -> bool {
    &&& seg.len() > 0
    &&& forall|i: int| 0 <= i < seg.len() ==> seg[i] != '/' && seg[i] != '*'
}

/// A well-formed topic: every segment is well-formed.
pub open spec fn topic_ok(t: Seq<Seq<char>>) -> bool {
    forall|i: int| 0 <= i < t.len() ==> topic_seg_ok(#[trigger] t[i])
}

/// A well-formed literal pattern segment: non-empty, no separator and no
/// wildcard character anywhere inside.
pub open spec fn lit_seg_ok(seg: Seq<char>) -> bool {
    topic_seg_ok(seg)
}

/// How many `**` matchers a pattern holds.
pub open spec fn dstar_count(p: Seq<PatSeg>) -> nat
    decreases p.len(),
{
    if p.len() == 0 {
        0
    } else {
        dstar_count(p.drop_last()) + if p.last() is DStar {
            1nat
        } else {
            0nat
        }
    }
}

/// A well-formed pattern: literal segments are well-formed and `**`
/// appears at most once.
pub open spec fn pattern_ok(p: Seq<PatSeg>) -> bool {
    &&& forall|i: int|
        0 <= i < p.len() ==> (#[trigger] p[i] matches PatSeg::Lit(l) ==> lit_seg_ok(l@))
    &&& dstar_count(p) <= 1
}

/// The `*` segment, matching exactly one arbitrary topic segment.
pub open spec fn is_star_seg(seg: Seq<char>) -> bool {
    seg == seq!['*']
}

/// The `**` segment, matching zero or more arbitrary topic segments.
pub open spec fn is_dstar_seg(seg: Seq<char>) -> bool {
    seg == seq!['*', '*']
}

/// A string segment acceptable in a pattern: `*`, `**` or a well-formed
/// literal.
pub open spec fn pat_seg_ok(seg: Seq<char>) -> bool {
    is_star_seg(seg) || is_dstar_seg(seg) || lit_seg_ok(seg)
}

/// How many `**` segments a segment list holds.
pub open spec fn dstar_seg_count(segs: Seq<Seq<char>>) -> nat
    decreases segs.len(),
{
    if segs.len() == 0 {
        0
    } else {
        dstar_seg_count(segs.drop_last()) + if is_dstar_seg(segs.last()) {
            1nat
        } else {
            0nat
        }
    }
}

pub proof fn lemma_dstar_seg_count_add(a: Seq<Seq<char>>, b: Seq<Seq<char>>)
    ensures
        dstar_seg_count(a + b) == dstar_seg_count(a) + dstar_seg_count(b),
    decreases b.len(),
{
    if b.len() == 0 {
        assert(a + b =~~= a);
    } else {
        assert((a + b).drop_last() =~~= a + b.drop_last());
        lemma_dstar_seg_count_add(a, b.drop_last());
        assert((a + b).last() == b.last());
    }
}

/// A string is acceptable as a pattern: every segment it denotes is `*`,
/// `**` or a well-formed literal, and `**` occurs at most once.
pub open spec fn pattern_str_ok(s: Seq<char>) -> bool {
    &&& forall|j: int|
        0 <= j < spec_segments(s).len() ==> pat_seg_ok(#[trigger] spec_segments(s)[j])
    &&& dstar_seg_count(spec_segments(s)) <= 1
}

/// The matcher `ps` is the one the segment text `seg` denotes.
pub open spec fn seg_matches_class(ps: PatSeg, seg: Seq<char>) -> bool {
    match ps {
        PatSeg::Lit(l) => l@ == seg && lit_seg_ok(seg),
        PatSeg::Star => is_star_seg(seg),
        PatSeg::DStar => is_dstar_seg(seg),
    }
}

/// Whether the pattern suffix `p` matches the topic suffix `t`,
/// segment-wise from the left. A `**` matcher may consume zero segments
/// (first disjunct) or one more segment (second disjunct), so every split
/// point is tried.
pub open spec fn seq_matches(p: Seq<PatSeg>, t: Seq<Seq<char>>) -> bool
    decreases p.len(), t.len(),
{
    if p.len() == 0 {
        t.len() == 0
    } else {
        match p[0] {
            PatSeg::Lit(l) => t.len() > 0 && t[0] == l@ && seq_matches(p.drop_first(), t.drop_first()),
            PatSeg::Star => t.len() > 0 && seq_matches(p.drop_first(), t.drop_first()),
            PatSeg::DStar => seq_matches(p.drop_first(), t) || (t.len() > 0 && seq_matches(
                p,
                t.drop_first(),
            )),
        }
    }
}

/// Law: a pattern of literal matchers that mirror a topic segment for
/// segment matches that topic.
pub proof fn lemma_literal_pattern_matches(p: Seq<PatSeg>, t: Seq<Seq<char>>)
    requires
        p.len() == t.len(),
        forall|i: int|
            0 <= i < p.len() ==> ((#[trigger] p[i]) matches PatSeg::Lit(l) && l@ == t[i]),
    ensures
        seq_matches(p, t),
    decreases p.len(),
{
    if p.len() > 0 {
        assert(p[0] matches PatSeg::Lit(l) && l@ == t[0]);
        assert forall|i: int| 0 <= i < p.drop_first().len() implies (#[trigger] p.drop_first()[i]) matches
            PatSeg::Lit(l) && l@ == t.drop_first()[i] by {
            assert(p.drop_first()[i] == p[i + 1]);
        }
        lemma_literal_pattern_matches(p.drop_first(), t.drop_first());
    }
}

/// Law: a pattern that holds a `**` matcher matches every topic matched
/// by the same pattern with the `**` deleted — the `**` may consume zero
/// segments.
pub proof fn lemma_dstar_consumes_zero(p: Seq<PatSeg>, t: Seq<Seq<char>>, i: int)
    requires
        0 <= i < p.len(),
        p[i] is DStar,
        seq_matches(p.remove(i), t),
    ensures
        seq_matches(p, t),
    decreases p.len(), t.len(),
{
    let q = p.remove(i);
    if i == 0 {
        assert(q =~= p.drop_first());
    } else {
        assert(q[0] == p[0]);
        assert(q.drop_first() =~= p.drop_first().remove(i - 1));
        assert(p.drop_first()[i - 1] == p[i]);
        match p[0] {
            PatSeg::Lit(l) => {
                lemma_dstar_consumes_zero(p.drop_first(), t.drop_first(), i - 1);
            },
            PatSeg::Star => {
                lemma_dstar_consumes_zero(p.drop_first(), t.drop_first(), i - 1);
            },
            PatSeg::DStar => {
                if seq_matches(q.drop_first(), t) {
                    lemma_dstar_consumes_zero(p.drop_first(), t, i - 1);
                } else {
                    lemma_dstar_consumes_zero(p, t.drop_first(), i);
                }
            },
        }
    }
}

/// A pattern without `**` matchers has no `**` in its count.
proof fn lemma_no_dstar_count(p: Seq<PatSeg>)
    requires
        forall|i: int| 0 <= i < p.len() ==> !((#[trigger] p[i]) is DStar),
    ensures
        dstar_count(p) == 0,
    decreases p.len(),
{
    if p.len() > 0 {
        lemma_no_dstar_count(p.drop_last());
    }
}

impl Topic {
    /// Parses a topic string: segments separated by `/`. The empty string
    /// is the empty topic; otherwise every segment must be non-empty and
    /// free of wildcard characters, or construction fails with
    /// `InvalidTopic`.
    pub fn parse(s: &str) -> (r: Result<Topic, NodeError>)
        ensures
            match r {
                Ok(t) => topic_str_ok(s@) && t@ =~~= spec_segments(s@) && topic_ok(t@),
                Err(e) => e == NodeError::InvalidTopic && !topic_str_ok(s@),
            },
    {
        let n = s.unicode_len();
        let mut segs: Vec<String> = Vec::new();
        if n == 0 {
            let t = Topic { segs };
            proof {
                assert(t@ =~~= spec_segments(s@));
            }
            return Ok(t);
        }
        let mut start: usize = 0;
        let mut i: usize = 0;
        let mut clean: bool = true;
        proof {
            assert(s@.skip(0) =~= s@);
            assert(segs@.map_values(|x: String| x@) =~~= Seq::<Seq<char>>::empty());
        }
        loop
            invariant_except_break
                n == s@.len(),
                n > 0,
                0 <= start <= i <= n,
                forall|k: int| start <= k < i ==> s@[k] != '/',
                clean <==> (forall|k: int| start <= k < i ==> s@[k] != '*'),
                spec_split(s@) =~~= segs@.map_values(|x: String| x@) + spec_split(
                    s@.skip(start as int),
                ),
                forall|j: int| 0 <= j < segs@.len() ==> topic_seg_ok(#[trigger] segs@[j]@),
            ensures
                spec_split(s@) =~~= segs@.map_values(|x: String| x@),
                forall|j: int| 0 <= j < segs@.len() ==> topic_seg_ok(#[trigger] segs@[j]@),
            decreases n - i,
        {
            let at_end = i == n;
            let at_slash = !at_end && s.get_char(i) == '/';
            if at_end || at_slash {
                let ghost pre = s@.subrange(start as int, i as int);
                proof {
                    if at_slash {
                        assert(s@.skip(start as int) =~= pre + seq!['/'] + s@.skip(i as int + 1));
                        lemma_split_at_slash(pre, s@.skip(i as int + 1));
                    } else {
                        assert(s@.skip(start as int) =~= pre);
                        lemma_split_no_slash(pre);
                    }
                    lemma_split_len(s@.skip(start as int));
                    assert(spec_split(s@.skip(start as int))[0] == pre);
                    assert(spec_split(s@)[segs@.len() as int] == pre);
                }
                if i == start || !clean {
                    proof {
                        if !clean {
                            assert(exists|k: int| start <= k < i && s@[k] == '*');
                            let k = choose|k: int| start <= k < i && s@[k] == '*';
                            assert(pre[k - start as int] == '*');
                        }
                        assert(!topic_seg_ok(pre));
                        assert(spec_segments(s@) == spec_split(s@));
                        assert(!topic_seg_ok(spec_segments(s@)[segs@.len() as int]));
                        assert(!topic_str_ok(s@));
                    }
                    return Err(NodeError::InvalidTopic);
                }
                let seg = s.substring_char(start, i).to_owned();
                proof {
                    assert(topic_seg_ok(seg@));
                    assert(segs@.push(seg).map_values(|x: String| x@) =~~= segs@.map_values(
                        |x: String| x@,
                    ).push(seg@));
                }
                segs.push(seg);
                if at_end {
                    break;
                }
                proof {
                    assert(spec_split(s@) =~~= segs@.map_values(|x: String| x@) + spec_split(
                        s@.skip(i as int + 1),
                    ));
                }
                start = i + 1;
                clean = true;
                i = i + 1;
            } else {
                if s.get_char(i) == '*' {
                    clean = false;
                }
                i = i + 1;
            }
        }
        let t = Topic { segs };
        proof {
            assert(t@ =~~= spec_segments(s@));
        }
        Ok(t)
    }

    /// This topic read as a pattern, literal for literal. The result
    /// matches this very topic, and is well-formed whenever the topic is.
    pub fn to_pattern(&self) -> (p: Pattern)
        ensures
            p@.len() == self@.len(),
            forall|i: int|
                0 <= i < p@.len() ==> ((#[trigger] p@[i]) matches PatSeg::Lit(l) && l@ == self@[i]),
            seq_matches(p@, self@),
            topic_ok(self@) ==> pattern_ok(p@),
    {
        let mut segs: Vec<PatSeg> = Vec::new();
        let n = self.segs.len();
        let mut i: usize = 0;
        while i < n
            invariant
                n == self.segs@.len(),
                0 <= i <= n,
                segs@.len() == i,
                forall|j: int|
                    0 <= j < i ==> ((#[trigger] segs@[j]) matches PatSeg::Lit(l) && l@ == self@[j]),
            decreases n - i,
        {
            let lit = self.segs[i].clone();
            segs.push(PatSeg::Lit(lit));
            i = i + 1;
        }
        let p = Pattern { segs };
        proof {
            lemma_literal_pattern_matches(p@, self@);
            if topic_ok(self@) {
                lemma_no_dstar_count(p@);
            }
        }
        p
    }

    /// An owned copy of this topic, segment for segment.
    pub fn duplicate(&self) -> (t: Topic)
        ensures
            t@ == self@,
    {
        let mut segs: Vec<String> = Vec::new();
        let n = self.segs.len();
        let mut i: usize = 0;
        while i < n
            invariant
                n == self.segs@.len(),
                0 <= i <= n,
                segs@.len() == i,
                forall|j: int| 0 <= j < i ==> (#[trigger] segs@[j])@ == self@[j],
            decreases n - i,
        {
            segs.push(self.segs[i].clone());
            i = i + 1;
        }
        let t = Topic { segs };
        proof {
            assert(t@ =~~= self@);
        }
        t
    }

    /// How many segments the topic has.
    pub fn len(&self) -> (n: usize)
        ensures
            n == self@.len(),
    {
        self.segs.len()
    }

    /// The text of one segment.
    pub fn segment(&self, i: usize) -> (s: &String)
        requires
            i < self@.len(),
        ensures
            s@ == self@[i as int],
    {
        &self.segs[i]
    }
}

impl Pattern {
    /// Parses a pattern string: segments separated by `/`, each a
    /// literal, `*` or `**`, with `**` at most once. The empty string is
    /// the empty pattern. Anything else fails with `MalformedPattern`.
    #[verifier::rlimit(100)]
    pub fn parse(s: &str) -> (r: Result<Pattern, NodeError>)
        ensures
            match r {
                Ok(p) => {
                    &&& pattern_str_ok(s@)
                    &&& p@.len() == spec_segments(s@).len()
                    &&& forall|j: int|
                        0 <= j < p@.len() ==> seg_matches_class(
                            #[trigger] p@[j],
                            spec_segments(s@)[j],
                        )
                    &&& pattern_ok(p@)
                },
                Err(e) => e == NodeError::MalformedPattern && !pattern_str_ok(s@),
            },
    {
        let n = s.unicode_len();
        let mut segs: Vec<PatSeg> = Vec::new();
        if n == 0 {
            let p = Pattern { segs };
            proof {
                assert(p@ =~= Seq::<PatSeg>::empty());
            }
            return Ok(p);
        }
        let mut start: usize = 0;
        let mut i: usize = 0;
        let mut has_star: bool = false;
        let mut all_star: bool = true;
        let mut seen_dstar: bool = false;
        let ghost mut done: Seq<Seq<char>> = Seq::empty();
        proof {
            assert(s@.skip(0) =~= s@);
            assert(spec_split(s@) =~~= done + spec_split(s@.skip(0)));
        }
        loop
            invariant_except_break
                n == s@.len(),
                n > 0,
                0 <= start <= i <= n,
                forall|k: int| start <= k < i ==> s@[k] != '/',
                has_star <==> (exists|k: int| start <= k < i && s@[k] == '*'),
                all_star <==> (forall|k: int| start <= k < i ==> s@[k] == '*'),
                spec_split(s@) =~~= done + spec_split(s@.skip(start as int)),
                segs@.len() == done.len(),
                forall|j: int|
                    0 <= j < segs@.len() ==> seg_matches_class(#[trigger] segs@[j], done[j]),
                dstar_count(segs@) == dstar_seg_count(done),
                dstar_seg_count(done) == if seen_dstar {
                    1nat
                } else {
                    0nat
                },
            ensures
                spec_split(s@) =~~= done,
                segs@.len() == done.len(),
                forall|j: int|
                    0 <= j < segs@.len() ==> seg_matches_class(#[trigger] segs@[j], done[j]),
                dstar_count(segs@) == dstar_seg_count(done),
                dstar_seg_count(done) <= 1,
            decreases n - i,
        {
            let at_end = i == n;
            let at_slash = !at_end && s.get_char(i) == '/';
            if at_end || at_slash {
                let ghost pre = s@.subrange(start as int, i as int);
                proof {
                    if at_slash {
                        assert(s@.skip(start as int) =~= pre + seq!['/'] + s@.skip(i as int + 1));
                        lemma_split_at_slash(pre, s@.skip(i as int + 1));
                    } else {
                        assert(s@.skip(start as int) =~= pre);
                        lemma_split_no_slash(pre);
                    }
                    lemma_split_len(s@.skip(start as int));
                    assert(spec_split(s@.skip(start as int))[0] == pre);
                    assert(spec_split(s@)[done.len() as int] == pre);
                    assert(spec_segments(s@) == spec_split(s@));
                }
                let len = i - start;
                let seg_ok = if len == 0 {
                    false
                } else if !has_star {
                    let lit = s.substring_char(start, i).to_owned();
                    proof {
                        assert(lit_seg_ok(pre));
                        assert(!is_dstar_seg(pre));
                        assert(dstar_count(segs@.push(PatSeg::Lit(lit))) == dstar_count(segs@)) by {
                            assert(segs@.push(PatSeg::Lit(lit)).drop_last() =~= segs@);
                        }
                    }
                    segs.push(PatSeg::Lit(lit));
                    true
                } else if all_star && len == 1 {
                    proof {
                        assert(pre =~= seq!['*']);
                        assert(!is_dstar_seg(pre));
                        assert(dstar_count(segs@.push(PatSeg::Star)) == dstar_count(segs@)) by {
                            assert(segs@.push(PatSeg::Star).drop_last() =~= segs@);
                        }
                    }
                    segs.push(PatSeg::Star);
                    true
                } else if all_star && len == 2 && !seen_dstar {
                    proof {
                        assert(pre =~= seq!['*', '*']);
                        assert(dstar_count(segs@.push(PatSeg::DStar)) == dstar_count(segs@)
                            + 1) by {
                            assert(segs@.push(PatSeg::DStar).drop_last() =~= segs@);
                        }
                    }
                    segs.push(PatSeg::DStar);
                    seen_dstar = true;
                    true
                } else {
                    false
                };
                if !seg_ok {
                    proof {
                        if all_star && len == 2 && seen_dstar {
                            // a second `**`: the whole string holds at least two
                            assert(pre =~= seq!['*', '*']);
                            let tail = spec_split(s@.skip(start as int)).drop_first();
                            assert(spec_split(s@.skip(start as int)) =~~= seq![pre] + tail);
                            lemma_dstar_seg_count_add(done, seq![pre] + tail);
                            lemma_dstar_seg_count_add(seq![pre], tail);
                            assert(seq![pre].drop_last() =~~= Seq::<Seq<char>>::empty());
                            assert(dstar_seg_count(Seq::<Seq<char>>::empty()) == 0);
                            assert(seq![pre].last() == pre);
                            assert(is_dstar_seg(pre));
                            assert(dstar_seg_count(seq![pre]) == 1);
                            assert(dstar_seg_count(spec_split(s@)) >= 2);
                        } else {
                            // the segment text denotes no matcher at all
                            if has_star && !all_star {
                                assert(exists|k: int| start <= k < i && s@[k] == '*');
                                let k1 = choose|k: int| start <= k < i && s@[k] == '*';
                                assert(pre[k1 - start as int] == '*');
                                assert(!(forall|k: int| start <= k < i ==> s@[k] == '*'));
                                let k0 = choose|k: int| start <= k < i && s@[k] != '*';
                                assert(pre[k0 - start as int] != '*');
                            }
                            if has_star && all_star && len >= 1 {
                                assert(pre[0] == s@[start as int]);
                                assert(pre[0] == '*');
                            }
                            assert(!pat_seg_ok(pre));
                            assert(!pat_seg_ok(spec_segments(s@)[done.len() as int]));
                        }
                        assert(!pattern_str_ok(s@));
                    }
                    return Err(NodeError::MalformedPattern);
                }
                proof {
                    let prev = done;
                    done = done.push(pre);
                    assert(done.drop_last() =~~= prev);
                    assert(prev + seq![pre] =~~= done);
                    if at_end {
                        assert(spec_split(s@) =~~= done);
                    } else {
                        assert(prev + (seq![pre] + spec_split(s@.skip(i as int + 1))) =~~= done
                            + spec_split(s@.skip(i as int + 1)));
                        assert(spec_split(s@) =~~= done + spec_split(s@.skip(i as int + 1)));
                    }
                }
                if at_end {
                    break;
                }
                start = i + 1;
                has_star = false;
                all_star = true;
                i = i + 1;
            } else {
                if s.get_char(i) == '*' {
                    has_star = true;
                } else {
                    all_star = false;
                }
                i = i + 1;
            }
        }
        let p = Pattern { segs };
        proof {
            assert(spec_segments(s@) == spec_split(s@));
            assert forall|j: int| 0 <= j < spec_segments(s@).len() implies pat_seg_ok(
                #[trigger] spec_segments(s@)[j],
            ) by {
                assert(seg_matches_class(p@[j], done[j]));
            }
            assert(pattern_ok(p@)) by {
                assert forall|i2: int| 0 <= i2 < p@.len() implies (#[trigger] p@[i2] matches
                    PatSeg::Lit(l) ==> lit_seg_ok(l@)) by {
                    assert(seg_matches_class(p@[i2], done[i2]));
                }
            }
        }
        Ok(p)
    }

    /// Whether this pattern matches the given topic.
    pub fn matches(&self, t: &Topic) -> (r: bool)
        ensures
            r == seq_matches(self@, t@),
    {
        proof {
            assert(self@.skip(0) =~= self@);
            assert(t@.skip(0) =~= t@);
        }
        matches_from(self, t, 0, 0)
    }
}

/// Whether the pattern from index `pi` on matches the topic from index
/// `ti` on; recursive backtracking over the `**` split points.
fn matches_from(p: &Pattern, t: &Topic, pi: usize, ti: usize) -> (r: bool)
    requires
        pi <= p@.len(),
        ti <= t@.len(),
    ensures
        r == seq_matches(p@.skip(pi as int), t@.skip(ti as int)),
    decreases p@.len() - pi, t@.len() - ti,
{
    proof {
        assert(p@.skip(pi as int).len() == p@.len() - pi);
        assert(t@.skip(ti as int).len() == t@.len() - ti);
    }
    if pi == p.segs.len() {
        return ti == t.segs.len();
    }
    proof {
        assert(p@.skip(pi as int)[0] == p@[pi as int]);
        assert(p@.skip(pi as int).drop_first() =~= p@.skip(pi as int + 1));
        if ti < t@.len() {
            assert(t@.skip(ti as int)[0] == t@[ti as int]);
            assert(t@.skip(ti as int).drop_first() =~= t@.skip(ti as int + 1));
        }
    }
    match &p.segs[pi] {
        PatSeg::Lit(l) => {
            if ti == t.segs.len() {
                false
            } else {
                let same = *l == t.segs[ti];
                same && matches_from(p, t, pi + 1, ti + 1)
            }
        },
        PatSeg::Star => ti < t.segs.len() && matches_from(p, t, pi + 1, ti + 1),
        PatSeg::DStar => {
            if matches_from(p, t, pi + 1, ti) {
                true
            } else {
                ti < t.segs.len() && matches_from(p, t, pi, ti + 1)
            }
        },
    }
}

} // verus!
