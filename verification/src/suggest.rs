use vstd::prelude::*;
use vstd::string::{is_ascii, StrSliceExecFns};

verus! {

/// A byte-free range of character positions inside an input line.
#[derive(Clone, Copy, PartialEq, Eq, Structural, Debug)]
pub struct StringRange {
    pub start: usize,
    pub end: usize,
}

impl StringRange {
    pub fn between(start: usize, end: usize) -> (r: StringRange)
        ensures
            r == (StringRange { start, end }),
    {
        StringRange { start, end }
    }
}

/// What a suggestion proposes: a replacement text or an integer.
#[derive(Debug, PartialEq, Eq)]
pub enum SuggestionValue {
    Text(String),
    Integer(i32),
}

/// One completion candidate: the range of the input it would replace, the
/// proposed value, and an optional tooltip.
#[derive(Debug, PartialEq, Eq)]
pub struct Suggestion {
    pub range: StringRange,
    pub value: SuggestionValue,
    pub tooltip: Option<String>,
}

/// The finished set of suggestions over one input line.
#[derive(Debug)]
pub struct Suggestions {
    pub range: StringRange,
    pub entries: Vec<Suggestion>,
}

/// The mathematical value of a suggestion's proposal.
pub enum SuggestionValueView {
    Text(Seq<char>),
    Integer(int),
}

/// The mathematical value of one suggestion.
pub struct SuggestionView {
    pub start: int,
    pub end: int,
    pub value: SuggestionValueView,
    pub tooltip: Option<Seq<char>>,
}

impl View for Suggestion {
    type V = SuggestionView;

    open spec fn view(&self) -> SuggestionView {
        SuggestionView {
            start: self.range.start as int,
            end: self.range.end as int,
            value: match self.value {
                SuggestionValue::Text(t) => SuggestionValueView::Text(t@),
                SuggestionValue::Integer(i) => SuggestionValueView::Integer(i as int),
            },
            tooltip: match self.tooltip {
                Some(t) => Some(t@),
                None => None,
            },
        }
    }
}

/// The mathematical values of a list of suggestions, in order.
pub open spec fn views_of(s: Seq<Suggestion>) -> Seq<SuggestionView> {
    s.map_values(|x: Suggestion| x@)
}

/// Set-like insertion at the end: a value already present is not added
/// again.
pub open spec fn insert_view(s: Seq<SuggestionView>, v: SuggestionView) -> Seq<SuggestionView> {
    if s.contains(v) {
        s
    } else {
        s.push(v)
    }
}

/// Set-like insertion of every element of `b` into `a`, left to right.
pub open spec fn merge_views(a: Seq<SuggestionView>, b: Seq<SuggestionView>) -> Seq<
    SuggestionView,
>
    decreases b.len(),
{
    if b.len() == 0 {
        a
    } else {
        merge_views(insert_view(a, b[0]), b.drop_first())
    }
}

/// No value occurs twice.
pub open spec fn distinct_views(s: Seq<SuggestionView>) -> bool {
    forall|i: int, j: int| 0 <= i < j < s.len() ==> s[i] != s[j]
}

/// The smallest range start among the suggestions.
pub open spec fn min_start(s: Seq<SuggestionView>) -> int
    recommends
        s.len() > 0,
    decreases s.len(),
{
    if s.len() <= 1 {
        if s.len() == 1 {
            s[0].start
        } else {
            0
        }
    } else {
        let m = min_start(s.drop_last());
        if s.last().start < m {
            s.last().start
        } else {
            m
        }
    }
}

/// The largest range end among the suggestions.
pub open spec fn max_end(s: Seq<SuggestionView>) -> int
    recommends
        s.len() > 0,
    decreases s.len(),
{
    if s.len() <= 1 {
        if s.len() == 1 {
            s[0].end
        } else {
            0
        }
    } else {
        let m = max_end(s.drop_last());
        if s.last().end > m {
            s.last().end
        } else {
            m
        }
    }
}

/// What `str::to_lowercase` returns: a function of the characters alone.
pub uninterp spec fn lower_of(s: Seq<char>) -> Seq<char>;

/// The ASCII lowercase of one character.
pub open spec fn ascii_lower_char(c: char) -> char {
    if 65 <= c as int <= 90 {
        (((c as u8) + 32) as u8) as char
    } else {
        c
    }
}

/// Relies on str::to_lowercase: the result depends on the characters
/// alone; it maps each character through char::to_lowercase, which yields
/// one or more characters, so the result is never shorter than the input;
/// and on ASCII input it applies the one-character ASCII lowercase mapping
/// position by position.
#[verifier::external_body]
fn to_lowercase(s: &str) -> (r: String)
    ensures
        r@ == lower_of(s@),
        r@.len() >= s@.len(),
        is_ascii(s) ==> r@ == s@.map_values(|c: char| ascii_lower_char(c)),
{
    s.to_lowercase()
}

/// Whether two suggestions carry the same mathematical value.
fn suggestion_eq(a: &Suggestion, b: &Suggestion) -> (r: bool)
    ensures
        r == (a@ == b@),
{
    if a.range.start != b.range.start || a.range.end != b.range.end {
        return false;
    }
    let values_eq: bool = match (&a.value, &b.value) {
        (SuggestionValue::Text(x), SuggestionValue::Text(y)) => x.eq(y),
        (SuggestionValue::Integer(x), SuggestionValue::Integer(y)) => *x == *y,
        _ => false,
    };
    if !values_eq {
        return false;
    }
    match (&a.tooltip, &b.tooltip) {
        (Some(x), Some(y)) => x.eq(y),
        (None, None) => true,
        _ => false,
    }
}

/// Whether a list already holds a suggestion with this value.
fn contains_suggestion(v: &Vec<Suggestion>, s: &Suggestion) -> (r: bool)
    ensures
        r == views_of(v@).contains(s@),
{
    let n: usize = v.len();
    let mut i: usize = 0;
    while i < n
        invariant
            n == v@.len(),
            i <= n,
            forall|j: int| 0 <= j < i ==> views_of(v@)[j] != s@,
        decreases n - i,
    {
        if suggestion_eq(&v[i], s) {
            proof {
                assert(views_of(v@)[i as int] == s@);
            }
            return true;
        }
        i = i + 1;
    }
    proof {
        assert(forall|j: int| 0 <= j < views_of(v@).len() ==> views_of(v@)[j] != s@);
    }
    false
}

/// An element-for-element copy of a suggestion.
fn clone_suggestion(s: &Suggestion) -> (r: Suggestion)
    ensures
        r@ == s@,
{
    Suggestion {
        range: s.range,
        value: match &s.value {
            SuggestionValue::Text(t) => SuggestionValue::Text(t.clone()),
            SuggestionValue::Integer(i) => SuggestionValue::Integer(*i),
        },
        tooltip: match &s.tooltip {
            Some(t) => Some(t.clone()),
            None => None,
        },
    }
}

impl Suggestions {
    /// Collect suggestions into a finished set whose range encompasses all
    /// of their ranges; with no suggestions the range is empty.
    pub fn create(_input: &str, entries: &Vec<Suggestion>) -> (r: Suggestions)
        ensures
            views_of(r.entries@) == views_of(entries@),
            entries@.len() == 0 ==> r.range == (StringRange { start: 0, end: 0 }),
            entries@.len() > 0 ==> r.range.start as int == min_start(views_of(entries@))
                && r.range.end as int == max_end(views_of(entries@)),
    {
        let n: usize = entries.len();
        if n == 0 {
            let r = Suggestions { range: StringRange { start: 0, end: 0 }, entries: Vec::new() };
            proof {
                assert(views_of(r.entries@) =~= views_of(entries@));
            }
            return r;
        }
        let mut lo: usize = entries[0].range.start;
        let mut hi: usize = entries[0].range.end;
        let mut copied: Vec<Suggestion> = Vec::new();
        copied.push(clone_suggestion(&entries[0]));
        let mut i: usize = 1;
        proof {
            assert(views_of(entries@).subrange(0, 1).drop_last() =~= Seq::<
                SuggestionView,
            >::empty());
        }
        while i < n
            invariant
                n == entries@.len(),
                1 <= i <= n,
                copied@.len() == i as int,
                forall|j: int| 0 <= j < i ==> views_of(copied@)[j] == views_of(entries@)[j],
                lo as int == min_start(views_of(entries@).subrange(0, i as int)),
                hi as int == max_end(views_of(entries@).subrange(0, i as int)),
            decreases n - i,
        {
            let e = &entries[i];
            if e.range.start < lo {
                lo = e.range.start;
            }
            if e.range.end > hi {
                hi = e.range.end;
            }
            copied.push(clone_suggestion(e));
            proof {
                let vs = views_of(entries@);
                assert(vs.subrange(0, i as int + 1).drop_last() =~= vs.subrange(0, i as int));
                assert(vs.subrange(0, i as int + 1).last() == vs[i as int]);
            }
            i = i + 1;
        }
        proof {
            assert(views_of(entries@).subrange(0, n as int) =~= views_of(entries@));
            assert(views_of(copied@) =~= views_of(entries@));
        }
        Suggestions { range: StringRange { start: lo, end: hi }, entries: copied }
    }
}

/// Builds up a set of completion candidates over one input line, tracking
/// the character position the suggestions apply from.
pub struct SuggestionsBuilder {
    input: String,
    input_lowercase: String,
    start: usize,
    remaining: String,
    remaining_lowercase: String,
    result: Vec<Suggestion>,
}

impl SuggestionsBuilder {
    pub closed spec fn spec_input(self) -> Seq<char> {
        self.input@
    }

    pub closed spec fn spec_input_lowercase(self) -> Seq<char> {
        self.input_lowercase@
    }

    pub closed spec fn spec_start(self) -> int {
        self.start as int
    }

    pub closed spec fn spec_remaining(self) -> Seq<char> {
        self.remaining@
    }

    pub closed spec fn spec_remaining_lowercase(self) -> Seq<char> {
        self.remaining_lowercase@
    }

    /// The values suggested so far, in insertion order.
    pub closed spec fn results(self) -> Seq<SuggestionView> {
        views_of(self.result@)
    }

    /// The remaining fields are the suffixes of the two input copies from
    /// `start` on, and no suggestion value occurs twice.
    pub closed spec fn wf(self) -> bool {
        &&& self.start as int <= self.input@.len()
        &&& self.start as int <= self.input_lowercase@.len()
        &&& self.remaining@ == self.input@.subrange(
            self.start as int,
            self.input@.len() as int,
        )
        &&& self.remaining_lowercase@ == self.input_lowercase@.subrange(
            self.start as int,
            self.input_lowercase@.len() as int,
        )
        &&& distinct_views(views_of(self.result@))
    }

    /// Everything but the collected suggestions is unchanged.
    pub open spec fn same_core(self, o: SuggestionsBuilder) -> bool {
        &&& self.spec_input() == o.spec_input()
        &&& self.spec_input_lowercase() == o.spec_input_lowercase()
        &&& self.spec_start() == o.spec_start()
        &&& self.spec_remaining() == o.spec_remaining()
        &&& self.spec_remaining_lowercase() == o.spec_remaining_lowercase()
    }

    /// Start building at a character position, lowercasing the input once.
    pub fn new(input: &str, start: usize) -> (r: SuggestionsBuilder)
        requires
            start as int <= input@.len(),
        ensures
            r.wf(),
            r.spec_input() == input@,
            r.spec_input_lowercase() == lower_of(input@),
            r.spec_start() == start as int,
            r.spec_remaining() == input@.subrange(start as int, input@.len() as int),
            r.spec_remaining_lowercase() == lower_of(input@).subrange(
                start as int,
                lower_of(input@).len() as int,
            ),
            r.results() == Seq::<SuggestionView>::empty(),
            is_ascii(input) ==> lower_of(input@) == input@.map_values(
                |c: char| ascii_lower_char(c),
            ),
    {
        let lower = to_lowercase(input);
        SuggestionsBuilder::new_with_lowercase(input, lower.as_str(), start)
    }

    /// Start building at a character position, with a caller-supplied
    /// lowercase copy of the input.
    pub fn new_with_lowercase(input: &str, input_lowercase: &str, start: usize) -> (r:
        SuggestionsBuilder)
        requires
            start as int <= input@.len(),
            start as int <= input_lowercase@.len(),
        ensures
            r.wf(),
            r.spec_input() == input@,
            r.spec_input_lowercase() == input_lowercase@,
            r.spec_start() == start as int,
            r.spec_remaining() == input@.subrange(start as int, input@.len() as int),
            r.spec_remaining_lowercase() == input_lowercase@.subrange(
                start as int,
                input_lowercase@.len() as int,
            ),
            r.results() == Seq::<SuggestionView>::empty(),
    {
        let input_len = input.unicode_len();
        let lower_len = input_lowercase.unicode_len();
        let rem = input.substring_char(start, input_len);
        let rem_lower = input_lowercase.substring_char(start, lower_len);
        let r = SuggestionsBuilder {
            input: input.to_owned(),
            input_lowercase: input_lowercase.to_owned(),
            start,
            remaining: rem.to_owned(),
            remaining_lowercase: rem_lower.to_owned(),
            result: Vec::new(),
        };
        proof {
            assert(views_of(r.result@) =~= Seq::<SuggestionView>::empty());
        }
        r
    }

    /// The full input line.
    pub fn input(&self) -> (r: &str)
        ensures
            r@ == self.spec_input(),
    {
        self.input.as_str()
    }

    /// The character position the suggestions apply from.
    pub fn start(&self) -> (r: usize)
        ensures
            r as int == self.spec_start(),
    {
        self.start
    }

    /// The input from `start` on.
    pub fn remaining(&self) -> (r: &str)
        ensures
            r@ == self.spec_remaining(),
    {
        self.remaining.as_str()
    }

    /// The lowercase input from `start` on.
    pub fn remaining_lowercase(&self) -> (r: &str)
        ensures
            r@ == self.spec_remaining_lowercase(),
    {
        self.remaining_lowercase.as_str()
    }

    /// Collect the suggestions gathered so far into a finished set.
    pub fn build(&self) -> (r: Suggestions)
        ensures
            views_of(r.entries@) == self.results(),
            self.results().len() == 0 ==> r.range == (StringRange { start: 0, end: 0 }),
            self.results().len() > 0 ==> r.range.start as int == min_start(self.results())
                && r.range.end as int == max_end(self.results()),
    {
        Suggestions::create(self.input.as_str(), &self.result)
    }

    /// Add a suggestion unless its value is already present.
    fn add_suggestion(self, s: Suggestion) -> (r: SuggestionsBuilder)
        requires
            self.wf(),
        ensures
            r.wf(),
            r.same_core(self),
            r.results() == insert_view(self.results(), s@),
    {
        if contains_suggestion(&self.result, &s) {
            self
        } else {
            let mut this = self;
            let ghost old_list = this.result@;
            let ghost sv = s@;
            this.result.push(s);
            proof {
                assert(views_of(this.result@) =~= views_of(old_list).push(sv));
                assert forall|i: int, j: int|
                    0 <= i < j < views_of(this.result@).len() implies views_of(this.result@)[i]
                    != views_of(this.result@)[j] by {
                    if j < old_list.len() as int {
                        assert(distinct_views(views_of(old_list)));
                    } else {
                        assert(!views_of(old_list).contains(sv));
                        assert(views_of(old_list)[i] != sv);
                    }
                }
            }
            this
        }
    }

    /// Suggest a replacement text for the remaining input; suggesting the
    /// remaining input itself is a no-op.
    pub fn suggest(self, text: &str) -> (r: SuggestionsBuilder)
        requires
            self.wf(),
        ensures
            r.wf(),
            r.same_core(self),
            r.results() == (if text@ == self.spec_remaining() {
                self.results()
            } else {
                insert_view(
                    self.results(),
                    SuggestionView {
                        start: self.spec_start(),
                        end: self.spec_input().len() as int,
                        value: SuggestionValueView::Text(text@),
                        tooltip: None,
                    },
                )
            }),
    {
        let t = text.to_owned();
        if t == self.remaining {
            return self;
        }
        let end = self.input.as_str().unicode_len();
        let s = Suggestion {
            range: StringRange { start: self.start, end },
            value: SuggestionValue::Text(text.to_owned()),
            tooltip: None,
        };
        self.add_suggestion(s)
    }

    /// Suggest a replacement text carrying a tooltip.
    pub fn suggest_with_tooltip(self, text: &str, tooltip: String) -> (r: SuggestionsBuilder)
        requires
            self.wf(),
        ensures
            r.wf(),
            r.same_core(self),
            r.results() == (if text@ == self.spec_remaining() {
                self.results()
            } else {
                insert_view(
                    self.results(),
                    SuggestionView {
                        start: self.spec_start(),
                        end: self.spec_input().len() as int,
                        value: SuggestionValueView::Text(text@),
                        tooltip: Some(tooltip@),
                    },
                )
            }),
    {
        let t = text.to_owned();
        if t == self.remaining {
            return self;
        }
        let end = self.input.as_str().unicode_len();
        let s = Suggestion {
            range: StringRange { start: self.start, end },
            value: SuggestionValue::Text(text.to_owned()),
            tooltip: Some(tooltip),
        };
        self.add_suggestion(s)
    }

    /// Suggest an integer value.
    pub fn suggest_integer(self, value: i32) -> (r: SuggestionsBuilder)
        requires
            self.wf(),
        ensures
            r.wf(),
            r.same_core(self),
            r.results() == insert_view(
                self.results(),
                SuggestionView {
                    start: self.spec_start(),
                    end: self.spec_input().len() as int,
                    value: SuggestionValueView::Integer(value as int),
                    tooltip: None,
                },
            ),
    {
        let end = self.input.as_str().unicode_len();
        let s = Suggestion {
            range: StringRange { start: self.start, end },
            value: SuggestionValue::Integer(value),
            tooltip: None,
        };
        self.add_suggestion(s)
    }

    /// Suggest an integer value carrying a tooltip.
    pub fn suggest_integer_with_tooltip(self, value: i32, tooltip: String) -> (r:
        SuggestionsBuilder)
        requires
            self.wf(),
        ensures
            r.wf(),
            r.same_core(self),
            r.results() == insert_view(
                self.results(),
                SuggestionView {
                    start: self.spec_start(),
                    end: self.spec_input().len() as int,
                    value: SuggestionValueView::Integer(value as int),
                    tooltip: Some(tooltip@),
                },
            ),
    {
        let end = self.input.as_str().unicode_len();
        let s = Suggestion {
            range: StringRange { start: self.start, end },
            value: SuggestionValue::Integer(value),
            tooltip: Some(tooltip),
        };
        self.add_suggestion(s)
    }

    /// Fold another builder's suggestions into this one, left to right,
    /// skipping values already present.
    pub fn add(self, other: SuggestionsBuilder) -> (r: SuggestionsBuilder)
        requires
            self.wf(),
        ensures
            r.wf(),
            r.same_core(self),
            r.results() == merge_views(self.results(), other.results()),
    {
        let ghost orig = self;
        let ghost target = merge_views(self.results(), other.results());
        let mut this = self;
        let mut rest = other.result;
        while rest.len() > 0
            invariant
                this.wf(),
                this.same_core(orig),
                merge_views(this.results(), views_of(rest@)) == target,
            decreases rest@.len(),
        {
            let ghost rest_before = rest@;
            let s = rest.remove(0);
            proof {
                assert(rest@ =~= rest_before.drop_first());
                assert(views_of(rest@) =~= views_of(rest_before).drop_first());
                assert(views_of(rest_before)[0] == s@);
            }
            let ghost this_before = this;
            this = this.add_suggestion(s);
            proof {
                assert(merge_views(this_before.results(), views_of(rest_before)) == merge_views(
                    this.results(),
                    views_of(rest@),
                ));
            }
        }
        proof {
            assert(views_of(rest@) =~= Seq::<SuggestionView>::empty());
        }
        this
    }

    /// A fresh builder over the same input, starting at another position.
    pub fn create_offset(&self, start: usize) -> (r: SuggestionsBuilder)
        requires
            start as int <= self.spec_input().len(),
            start as int <= self.spec_input_lowercase().len(),
        ensures
            r.wf(),
            r.spec_input() == self.spec_input(),
            r.spec_input_lowercase() == self.spec_input_lowercase(),
            r.spec_start() == start as int,
            r.spec_remaining() == self.spec_input().subrange(
                start as int,
                self.spec_input().len() as int,
            ),
            r.spec_remaining_lowercase() == self.spec_input_lowercase().subrange(
                start as int,
                self.spec_input_lowercase().len() as int,
            ),
            r.results() == Seq::<SuggestionView>::empty(),
    {
        SuggestionsBuilder::new_with_lowercase(
            self.input.as_str(),
            self.input_lowercase.as_str(),
            start,
        )
    }

    /// A fresh builder over the same input and the same position.
    pub fn restart(&self) -> (r: SuggestionsBuilder)
        requires
            self.wf(),
        ensures
            r.wf(),
            r.spec_input() == self.spec_input(),
            r.spec_input_lowercase() == self.spec_input_lowercase(),
            r.spec_start() == self.spec_start(),
            r.spec_remaining() == self.spec_input().subrange(
                self.spec_start(),
                self.spec_input().len() as int,
            ),
            r.spec_remaining_lowercase() == self.spec_input_lowercase().subrange(
                self.spec_start(),
                self.spec_input_lowercase().len() as int,
            ),
            r.results() == Seq::<SuggestionView>::empty(),
    {
        self.create_offset(self.start)
    }
}

} // verus!
