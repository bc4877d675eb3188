use vstd::prelude::*;
use crate::arguments::{arguments_of, parse_arguments};
use crate::config::opt_view;
use crate::llm::{
    calls_view, default_call_name, function_name, generate_function, CallView, StreamChunk,
    ToolCall, ToolCallChunk, ToolCallFunction,
};

verus! {

/// A tool call whose fragments are still arriving.
#[derive(Debug)]
pub struct PendingToolCall {
    pub slot_index: usize,
    pub id: String,
    pub name: String,
    pub arguments: String,
}

/// A pending call in terms of views; its arguments are the fragments so far,
/// concatenated in arrival order.
pub ghost struct PendingCall {
    pub id: Seq<char>,
    pub name: Seq<char>,
    pub arguments: Seq<char>,
}

impl View for PendingToolCall {
    type V = PendingCall;

    open spec fn view(&self) -> PendingCall {
        PendingCall { id: self.id@, name: self.name@, arguments: self.arguments@ }
    }
}

/// A tool-call fragment in terms of views.
pub ghost struct ToolFragment {
    pub slot: usize,
    pub id: Option<Seq<char>>,
    pub name: Option<Seq<char>>,
    pub arguments: Seq<char>,
}

pub open spec fn fragment_of(c: ToolCallChunk) -> ToolFragment {
    ToolFragment {
        slot: c.index,
        id: opt_view(c.id),
        name: opt_view(c.function.name),
        arguments: c.function.arguments@,
    }
}

/// The effect of one fragment on the pending calls, keyed by slot: a fragment
/// with an identifier starts a call at its slot; one without continues the
/// call at its slot, and is refused (`None`) where no call was started there.
pub open spec fn step_slots(slots: Map<usize, PendingCall>, f: ToolFragment) -> Option<
    Map<usize, PendingCall>,
> {
    match f.id {
        Some(id) => Some(
            slots.insert(
                f.slot,
                PendingCall {
                    id,
                    name: match f.name {
                        Some(n) => n,
                        None => Seq::empty(),
                    },
                    arguments: f.arguments,
                },
            ),
        ),
        None => if slots.contains_key(f.slot) {
            let p = slots[f.slot];
            Some(slots.insert(f.slot, PendingCall { arguments: p.arguments + f.arguments, ..p }))
        } else {
            None
        },
    }
}

/// The effect of fragments, applied in arrival order.
pub open spec fn apply_fragments(slots: Map<usize, PendingCall>, fs: Seq<ToolFragment>) -> Option<
    Map<usize, PendingCall>,
>
    decreases fs.len(),
{
    if fs.len() == 0 {
        Some(slots)
    } else {
        match apply_fragments(slots, fs.drop_last()) {
            Some(m) => step_slots(m, fs.last()),
            None => None,
        }
    }
}

/// What the accumulator holds: the text so far (`None` until some text
/// arrives) and the pending calls by slot.
pub ghost struct AccumulatorView {
    pub text: Option<Seq<char>>,
    pub slots: Map<usize, PendingCall>,
}

pub open spec fn append_text(text: Option<Seq<char>>, s: Seq<char>) -> Option<Seq<char>> {
    match text {
        Some(t) => Some(t + s),
        None => Some(s),
    }
}

/// The effect of one frame's choices, in order: each delta's text first,
/// then its tool-call fragments.
pub open spec fn apply_choices(
    a: AccumulatorView,
    choices: Seq<crate::llm::StreamChoice>,
) -> Option<AccumulatorView>
    decreases choices.len(),
{
    if choices.len() == 0 {
        Some(a)
    } else {
        match apply_choices(a, choices.drop_last()) {
            None => None,
            Some(b) => match choices.last().delta {
                None => Some(b),
                Some(d) => {
                    let text = match d.content {
                        Some(c) => append_text(b.text, c@),
                        None => b.text,
                    };
                    let frags = match d.tool_calls {
                        Some(v) => v@.map_values(|c: ToolCallChunk| fragment_of(c)),
                        None => Seq::empty(),
                    };
                    match apply_fragments(b.slots, frags) {
                        Some(m) => Some(AccumulatorView { text, slots: m }),
                        None => None,
                    }
                },
            },
        }
    }
}

/// The tool call that a pending call becomes once the stream has ended.
pub open spec fn finalize(p: PendingCall) -> CallView {
    CallView {
        id: p.id,
        tool_type: function_name(),
        name: p.name,
        arguments: arguments_of(p.arguments),
    }
}

/// `ks` lists the slots in increasing order, and `calls` holds the
/// finalized call of each.
pub open spec fn slot_order_witness(
    ks: Seq<usize>,
    calls: Seq<CallView>,
    slots: Map<usize, PendingCall>,
) -> bool {
    &&& ks.len() == calls.len()
    &&& forall|i: int, j: int| 0 <= i < j < ks.len() ==> ks[i] < ks[j]
    &&& forall|i: int|
        0 <= i < ks.len() ==> slots.contains_key(#[trigger] ks[i]) && calls[i] == finalize(
            slots[ks[i]],
        )
    &&& forall|k: usize| #[trigger]
        slots.contains_key(k) ==> exists|i: int| 0 <= i < ks.len() && ks[i] == k
}

/// The calls are the finalized pending calls, one per slot, in slot order.
pub open spec fn calls_in_slot_order(calls: Seq<CallView>, slots: Map<usize, PendingCall>) -> bool {
    exists|ks: Seq<usize>| #[trigger] slot_order_witness(ks, calls, slots)
}

/// A continuation fragment arrived for a slot where no call was started.
#[derive(Debug, Clone, PartialEq, Eq)]
pub enum StreamError {
    UnknownSlot(usize),
}

/// What one round of streaming produced.
#[derive(Debug)]
pub struct RoundOutput {
    pub text: Option<String>,
    pub tool_calls: Vec<ToolCall>,
    pub had_any_output: bool,
}

/// Reassembles the text and the tool calls of one streamed answer.
#[derive(Debug)]
pub struct StreamAccumulator {
    text: Option<String>,
    pending: Vec<PendingToolCall>,
}

spec fn slots_sorted(s: Seq<PendingToolCall>) -> bool {
    forall|i: int, j: int| 0 <= i < j < s.len() ==> s[i].slot_index < s[j].slot_index
}

spec fn has_slot(s: Seq<PendingToolCall>, k: usize) -> bool {
    exists|i: int| 0 <= i < s.len() && s[i].slot_index == k
}

spec fn slot_position(s: Seq<PendingToolCall>, k: usize) -> int {
    choose|i: int| 0 <= i < s.len() && s[i].slot_index == k
}

spec fn slot_map(s: Seq<PendingToolCall>) -> Map<usize, PendingCall> {
    Map::new(|k: usize| has_slot(s, k), |k: usize| s[slot_position(s, k)]@)
}

proof fn lemma_position(s: Seq<PendingToolCall>, i: int)
    requires
        slots_sorted(s),
        0 <= i < s.len(),
    ensures
        has_slot(s, s[i].slot_index),
        slot_position(s, s[i].slot_index) == i,
{
    let k = s[i].slot_index;
    assert(0 <= i < s.len() && s[i].slot_index == k);
    let j = slot_position(s, k);
    if j < i {
        assert(s[j].slot_index < s[i].slot_index);
    } else if j > i {
        assert(s[i].slot_index < s[j].slot_index);
    }
}

proof fn lemma_update(s: Seq<PendingToolCall>, r: int, p: PendingToolCall)
    requires
        slots_sorted(s),
        0 <= r < s.len(),
        s[r].slot_index == p.slot_index,
    ensures
        slots_sorted(s.update(r, p)),
        slot_map(s.update(r, p)) == slot_map(s).insert(p.slot_index, p@),
{
    let t = s.update(r, p);
    assert(slots_sorted(t));
    assert forall|k: usize| #[trigger] has_slot(t, k) == (has_slot(s, k) || k == p.slot_index) by {
        if has_slot(s, k) {
            let i = slot_position(s, k);
            assert(t[i].slot_index == k);
        }
        if has_slot(t, k) {
            let i = slot_position(t, k);
            assert(s[i].slot_index == k);
        }
        if k == p.slot_index {
            assert(t[r].slot_index == k);
        }
    }
    assert forall|k: usize| has_slot(t, k) implies #[trigger] slot_map(t)[k] == slot_map(s).insert(
        p.slot_index,
        p@,
    )[k] by {
        let i = slot_position(t, k);
        lemma_position(t, i);
        if k != p.slot_index {
            lemma_position(s, i);
        }
    }
    assert(slot_map(t) =~= slot_map(s).insert(p.slot_index, p@));
}

proof fn lemma_insert(s: Seq<PendingToolCall>, r: int, p: PendingToolCall)
    requires
        slots_sorted(s),
        0 <= r <= s.len(),
        forall|i: int| 0 <= i < r ==> s[i].slot_index < p.slot_index,
        forall|i: int| r <= i < s.len() ==> s[i].slot_index > p.slot_index,
    ensures
        slots_sorted(s.insert(r, p)),
        slot_map(s.insert(r, p)) == slot_map(s).insert(p.slot_index, p@),
{
    let t = s.insert(r, p);
    assert forall|i: int, j: int| 0 <= i < j < t.len() implies t[i].slot_index
        < t[j].slot_index by {
        if j < r {
        } else if j == r {
        } else if i < r {
        } else if i == r {
        } else {
            assert(t[i] == s[i - 1] && t[j] == s[j - 1]);
        }
    }
    assert forall|k: usize| #[trigger] has_slot(t, k) == (has_slot(s, k) || k == p.slot_index) by {
        if has_slot(s, k) {
            let i = slot_position(s, k);
            if i < r {
                assert(t[i].slot_index == k);
            } else {
                assert(t[i + 1].slot_index == k);
            }
        }
        if has_slot(t, k) {
            let i = slot_position(t, k);
            if i < r {
                assert(s[i].slot_index == k);
            } else if i > r {
                assert(s[i - 1].slot_index == k);
            }
        }
        if k == p.slot_index {
            assert(t[r].slot_index == k);
        }
    }
    assert forall|k: usize| has_slot(t, k) implies #[trigger] slot_map(t)[k] == slot_map(s).insert(
        p.slot_index,
        p@,
    )[k] by {
        let i = slot_position(t, k);
        lemma_position(t, i);
        if i < r {
            lemma_position(s, i);
        } else if i > r {
            lemma_position(s, i - 1);
        }
    }
    assert(slot_map(t) =~= slot_map(s).insert(p.slot_index, p@));
}

impl View for StreamAccumulator {
    type V = AccumulatorView;

    closed spec fn view(&self) -> AccumulatorView {
        AccumulatorView { text: opt_view(self.text), slots: slot_map(self.pending@) }
    }
}

impl StreamAccumulator {
    /// Sorted by slot, at most one pending call per slot.
    pub closed spec fn wf(&self) -> bool {
        slots_sorted(self.pending@)
    }

    /// No text and no pending call.
    pub fn new() -> (r: Self)
        ensures
            r.wf(),
            r@.text is None,
            r@.slots == Map::<usize, PendingCall>::empty(),
    {
        let r = StreamAccumulator { text: None, pending: Vec::new() };
        assert(slot_map(r.pending@) =~= Map::<usize, PendingCall>::empty());
        r
    }

    /// Appends a content fragment to the text.
    pub fn push_content(&mut self, s: &str)
        requires
            old(self).wf(),
        ensures
            final(self).wf(),
            final(self)@ == (AccumulatorView { text: append_text(old(self)@.text, s@), ..old(self)@ }),
    {
        let t = match self.text.take() {
            Some(t) => t.concat(s),
            None => s.to_string(),
        };
        self.text = Some(t);
    }

    /// The index of the first pending call whose slot is not below `k`.
    fn locate(&self, k: usize) -> (r: usize)
        requires
            self.wf(),
        ensures
            r <= self.pending.len(),
            forall|i: int| 0 <= i < r ==> self.pending@[i].slot_index < k,
            forall|i: int| r <= i < self.pending.len() ==> self.pending@[i].slot_index >= k,
    {
        let mut i: usize = 0;
        while i < self.pending.len()
            invariant
                self.wf(),
                i <= self.pending.len(),
                forall|j: int| 0 <= j < i ==> self.pending@[j].slot_index < k,
            decreases self.pending.len() - i,
        {
            if self.pending[i].slot_index >= k {
                return i;
            }
            i = i + 1;
        }
        i
    }

    /// Applies one tool-call fragment; refuses a continuation for a slot
    /// where no call was started, and then changes nothing.
    pub fn push_tool_fragment(&mut self, c: &ToolCallChunk) -> (r: Result<(), StreamError>)
        requires
            old(self).wf(),
        ensures
            final(self).wf(),
            match step_slots(old(self)@.slots, fragment_of(*c)) {
                Some(m) => r is Ok && final(self)@ == (AccumulatorView {
                    slots: m,
                    ..old(self)@
                }),
                None => r == Err::<(), StreamError>(StreamError::UnknownSlot(c.index))
                    && final(self)@ == old(self)@,
            },
    {
        let k = c.index;
        let r = self.locate(k);
        let found = r < self.pending.len() && self.pending[r].slot_index == k;
        let ghost s = self.pending@;
        match &c.id {
            Some(id) => {
                let name = match &c.function.name {
                    Some(n) => n.clone(),
                    None => default_call_name(),
                };
                let fresh = PendingToolCall {
                    slot_index: k,
                    id: id.clone(),
                    name,
                    arguments: c.function.arguments.clone(),
                };
                proof {
                    if found {
                        lemma_update(s, r as int, fresh);
                    } else {
                        lemma_insert(s, r as int, fresh);
                    }
                }
                if found {
                    self.pending.set(r, fresh);
                } else {
                    self.pending.insert(r, fresh);
                }
                Ok(())
            },
            None => {
                if !found {
                    proof {
                        if has_slot(s, k) {
                            let i = slot_position(s, k);
                            assert(s[i].slot_index == k);
                            if i > r {
                                assert(s[r as int].slot_index < s[i].slot_index);
                            }
                        }
                    }
                    return Err(StreamError::UnknownSlot(k));
                }
                let p = &self.pending[r];
                let updated = PendingToolCall {
                    slot_index: k,
                    id: p.id.clone(),
                    name: p.name.clone(),
                    arguments: p.arguments.clone().concat(c.function.arguments.as_str()),
                };
                proof {
                    lemma_position(s, r as int);
                    lemma_update(s, r as int, updated);
                }
                self.pending.set(r, updated);
                Ok(())
            },
        }
    }
}


proof fn lemma_fragments_stuck(slots: Map<usize, PendingCall>, fs: Seq<ToolFragment>, n: int)
    requires
        0 <= n <= fs.len(),
        apply_fragments(slots, fs.subrange(0, n)) is None,
    ensures
        apply_fragments(slots, fs) is None,
    decreases fs.len() - n,
{
    if n < fs.len() {
        assert(fs.subrange(0, n + 1).drop_last() =~= fs.subrange(0, n));
        lemma_fragments_stuck(slots, fs, n + 1);
    } else {
        assert(fs.subrange(0, n) =~= fs);
    }
}

proof fn lemma_choices_stuck(a: AccumulatorView, cs: Seq<crate::llm::StreamChoice>, n: int)
    requires
        0 <= n <= cs.len(),
        apply_choices(a, cs.subrange(0, n)) is None,
    ensures
        apply_choices(a, cs) is None,
    decreases cs.len() - n,
{
    if n < cs.len() {
        assert(cs.subrange(0, n + 1).drop_last() =~= cs.subrange(0, n));
        lemma_choices_stuck(a, cs, n + 1);
    } else {
        assert(cs.subrange(0, n) =~= cs);
    }
}

impl StreamAccumulator {
    /// Applies the tool-call fragments of one delta, in order.
    fn push_tool_fragments(&mut self, v: &Vec<ToolCallChunk>) -> (r: Result<(), StreamError>)
        requires
            old(self).wf(),
        ensures
            final(self).wf(),
            match apply_fragments(
                old(self)@.slots,
                v@.map_values(|c: ToolCallChunk| fragment_of(c)),
            ) {
                Some(m) => r is Ok && final(self)@ == (AccumulatorView { slots: m, ..old(self)@ }),
                None => r is Err,
            },
    {
        let ghost start = self@;
        let ghost fs = v@.map_values(|c: ToolCallChunk| fragment_of(c));
        let mut j: usize = 0;
        assert(fs.subrange(0, 0) =~= Seq::<ToolFragment>::empty());
        while j < v.len()
            invariant
                self.wf(),
                j <= v.len(),
                fs == v@.map_values(|c: ToolCallChunk| fragment_of(c)),
                start == old(self)@,
                self@.text == start.text,
                apply_fragments(start.slots, fs.subrange(0, j as int)) == Some(self@.slots),
            decreases v.len() - j,
        {
            assert(fs.subrange(0, j + 1).drop_last() =~= fs.subrange(0, j as int));
            assert(fs.subrange(0, j + 1).last() == fragment_of(v@[j as int]));
            let ghost before = self@;
            match self.push_tool_fragment(&v[j]) {
                Ok(()) => {},
                Err(e) => {
                    proof {
                        assert(step_slots(before.slots, fs[j as int]) is None);
                        assert(apply_fragments(start.slots, fs.subrange(0, j + 1)) is None);
                        lemma_fragments_stuck(start.slots, fs, j + 1);
                    }
                    return Err(e);
                },
            }
            j = j + 1;
        }
        assert(fs.subrange(0, v.len() as int) =~= fs);
        Ok(())
    }

    /// Applies one data frame: each choice's text, then its tool-call
    /// fragments. Fails where a fragment continues a slot that was never
    /// started; the round is then lost.
    pub fn apply_chunk(&mut self, chunk: &StreamChunk) -> (r: Result<(), StreamError>)
        requires
            old(self).wf(),
        ensures
            final(self).wf(),
            match apply_choices(old(self)@, chunk.choices@) {
                Some(a) => r is Ok && final(self)@ == a,
                None => r is Err,
            },
    {
        let ghost start = self@;
        let cs = &chunk.choices;
        let mut i: usize = 0;
        assert(cs@.subrange(0, 0) =~= Seq::<crate::llm::StreamChoice>::empty());
        while i < cs.len()
            invariant
                self.wf(),
                i <= cs.len(),
                start == old(self)@,
                cs@ == chunk.choices@,
                apply_choices(start, cs@.subrange(0, i as int)) == Some(self@),
            decreases cs.len() - i,
        {
            assert(cs@.subrange(0, i + 1).drop_last() =~= cs@.subrange(0, i as int));
            assert(cs@.subrange(0, i + 1).last() == cs@[i as int]);
            match &cs[i].delta {
                None => {},
                Some(d) => {
                    match &d.content {
                        Some(c) => self.push_content(c.as_str()),
                        None => {},
                    }
                    match &d.tool_calls {
                        Some(v) => match self.push_tool_fragments(v) {
                            Ok(()) => {},
                            Err(e) => {
                                proof {
                                    assert(apply_choices(start, cs@.subrange(0, i + 1)) is None);
                                    lemma_choices_stuck(start, cs@, i + 1);
                                }
                                return Err(e);
                            },
                        },
                        None => {
                            assert(apply_fragments(self@.slots, Seq::<ToolFragment>::empty())
                                == Some(self@.slots));
                        },
                    }
                },
            }
            i = i + 1;
        }
        assert(cs@.subrange(0, cs.len() as int) =~= cs@);
        Ok(())
    }

    /// Ends the round: every pending call, in slot order, becomes a tool call
    /// whose arguments are its concatenated fragments parsed as JSON (or the
    /// text marked invalid where it does not parse).
    pub fn finish(self) -> (r: RoundOutput)
        requires
            self.wf(),
        ensures
            opt_view(r.text) == self@.text,
            calls_in_slot_order(calls_view(r.tool_calls@), self@.slots),
            r.had_any_output == (self@.text is Some || r.tool_calls.len() > 0),
    {
        let ghost ps = self.pending@;
        let mut calls: Vec<ToolCall> = Vec::new();
        let mut i: usize = 0;
        while i < self.pending.len()
            invariant
                i <= self.pending.len(),
                ps == self.pending@,
                calls.len() == i,
                forall|j: int| 0 <= j < i ==> #[trigger] calls@[j]@ == finalize(ps[j]@),
            decreases self.pending.len() - i,
        {
            let p = &self.pending[i];
            let call = ToolCall {
                id: p.id.clone(),
                tool_type: generate_function(),
                function: ToolCallFunction {
                    name: p.name.clone(),
                    arguments: parse_arguments(p.arguments.as_str()),
                },
            };
            calls.push(call);
            i = i + 1;
        }
        proof {
            let ks = ps.map_values(|p: PendingToolCall| p.slot_index);
            let cv = calls_view(calls@);
            let m = slot_map(ps);
            assert forall|j: int| 0 <= j < ks.len() implies m.contains_key(#[trigger] ks[j])
                && cv[j] == finalize(m[ks[j]]) by {
                lemma_position(ps, j);
            }
            assert forall|k: usize| #[trigger] m.contains_key(k) implies exists|j: int|
                0 <= j < ks.len() && ks[j] == k by {
                let j = slot_position(ps, k);
                assert(ks[j] == k);
            }
            assert(slot_order_witness(ks, cv, m));
        }
        let had_any_output = self.text.is_some() || calls.len() > 0;
        RoundOutput { text: self.text, tool_calls: calls, had_any_output }
    }
}

/// The fragments' argument texts joined in arrival order.
pub open spec fn concat_all(parts: Seq<Seq<char>>) -> Seq<char>
    decreases parts.len(),
{
    if parts.len() == 0 {
        Seq::empty()
    } else {
        concat_all(parts.drop_last()) + parts.last()
    }
}

/// A call delivered in pieces at one slot: the first fragment carries the
/// identifier and the name, the others only argument text.
pub open spec fn fragment_run(
    slot: usize,
    id: Seq<char>,
    name: Option<Seq<char>>,
    parts: Seq<Seq<char>>,
) -> Seq<ToolFragment> {
    Seq::new(
        parts.len(),
        |i: int|
            ToolFragment {
                slot,
                id: if i == 0 {
                    Some(id)
                } else {
                    None
                },
                name: if i == 0 {
                    name
                } else {
                    None
                },
                arguments: parts[i],
            },
    )
}

/// A call delivered in fragments is reassembled into the call that one
/// unfragmented frame with the concatenated argument text gives: the same
/// pending calls, hence the same finalized tool call at that slot.
pub proof fn lemma_fragmented_call_reassembles(
    slots: Map<usize, PendingCall>,
    slot: usize,
    id: Seq<char>,
    name: Option<Seq<char>>,
    parts: Seq<Seq<char>>,
)
    requires
        parts.len() > 0,
    ensures
        apply_fragments(slots, fragment_run(slot, id, name, parts)) == step_slots(
            slots,
            ToolFragment { slot, id: Some(id), name, arguments: concat_all(parts) },
        ),
        apply_fragments(slots, fragment_run(slot, id, name, parts)) matches Some(m) && finalize(
            m[slot],
        ) == (CallView {
            id,
            tool_type: function_name(),
            name: match name {
                Some(n) => n,
                None => Seq::empty(),
            },
            arguments: arguments_of(concat_all(parts)),
        }),
    decreases parts.len(),
{
    let run = fragment_run(slot, id, name, parts);
    if parts.len() == 1 {
        assert(run.drop_last() =~= Seq::<ToolFragment>::empty());
        assert(parts.drop_last() =~= Seq::<Seq<char>>::empty());
        assert(concat_all(parts.drop_last()) == Seq::<char>::empty());
        assert(concat_all(parts) =~= parts[0]);
        assert(run.last() == ToolFragment { slot, id: Some(id), name, arguments: parts[0] });
        assert(apply_fragments(slots, run.drop_last()) == Some(slots));
    } else {
        let prev = parts.drop_last();
        lemma_fragmented_call_reassembles(slots, slot, id, name, prev);
        assert(run.drop_last() =~= fragment_run(slot, id, name, prev));
        let m = apply_fragments(slots, fragment_run(slot, id, name, prev)).unwrap();
        let p = m[slot];
        assert(run.last() == ToolFragment { slot, id: None, name: None, arguments: parts.last() });
        assert(m.contains_key(slot));
        assert(concat_all(parts) == concat_all(prev) + parts.last());
        assert(m.insert(slot, PendingCall { arguments: p.arguments + parts.last(), ..p })
            =~= step_slots(
            slots,
            ToolFragment { slot, id: Some(id), name, arguments: concat_all(parts) },
        ).unwrap());
    }
}

/// The fragments addressed to one slot, in arrival order.
pub open spec fn fragments_at(fs: Seq<ToolFragment>, slot: usize) -> Seq<ToolFragment>
    decreases fs.len(),
{
    if fs.len() == 0 {
        Seq::empty()
    } else if fs.last().slot == slot {
        fragments_at(fs.drop_last(), slot).push(fs.last())
    } else {
        fragments_at(fs.drop_last(), slot)
    }
}

/// The pending call at a slot depends on that slot's own fragments alone,
/// however they interleave with the fragments of other slots.
pub proof fn lemma_slot_depends_on_own_fragments(
    slots: Map<usize, PendingCall>,
    fs: Seq<ToolFragment>,
    slot: usize,
)
    requires
        apply_fragments(slots, fs) is Some,
    ensures
        apply_fragments(slots, fragments_at(fs, slot)) matches Some(own) && {
            let all = apply_fragments(slots, fs).unwrap();
            &&& own.contains_key(slot) == all.contains_key(slot)
            &&& own.contains_key(slot) ==> own[slot] == all[slot]
        },
    decreases fs.len(),
{
    if fs.len() > 0 {
        let prev = fs.drop_last();
        let f = fs.last();
        lemma_slot_depends_on_own_fragments(slots, prev, slot);
        if f.slot == slot {
            assert(fragments_at(fs, slot).drop_last() =~= fragments_at(prev, slot));
            assert(fragments_at(fs, slot).last() == f);
        }
    }
}

/// A call whose fragments at its slot arrive interleaved with those of
/// other slots (the first with its identifier and name, the others with
/// argument text only) is reassembled into the call that one unfragmented
/// frame with the concatenated argument text gives.
pub proof fn lemma_interleaved_call_reassembles(
    slots: Map<usize, PendingCall>,
    fs: Seq<ToolFragment>,
    slot: usize,
    id: Seq<char>,
    name: Option<Seq<char>>,
    parts: Seq<Seq<char>>,
)
    requires
        parts.len() > 0,
        fragments_at(fs, slot) == fragment_run(slot, id, name, parts),
        apply_fragments(slots, fs) is Some,
    ensures
        apply_fragments(slots, fs).unwrap().contains_key(slot),
        finalize(apply_fragments(slots, fs).unwrap()[slot]) == (CallView {
            id,
            tool_type: function_name(),
            name: match name {
                Some(n) => n,
                None => Seq::empty(),
            },
            arguments: arguments_of(concat_all(parts)),
        }),
{
    lemma_slot_depends_on_own_fragments(slots, fs, slot);
    lemma_fragmented_call_reassembles(slots, slot, id, name, parts);
}

} // verus!
