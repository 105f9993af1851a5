//! The markdown task extractor: a stream of structural tokenizer events is
//! replayed against an explicit stack of parse frames, reconstructing
//! task-list items together with their embedded `agmd:` annotation.
//!
//! A frame is either an in-progress list item, or a marker covering the
//! inside of a recognized annotation link, whose label text is excluded
//! from the item's display text.

use vstd::prelude::*;
use vstd::string::{StrSliceExecFns, StringExecFns};

use crate::agmd::{agmd_body_spec, agmd_wf, parse_agmd, parse_agmd_spec, push_agmd_body, Agmd};
use crate::text::{is_space_char, is_space_exec, to_char_vec};
use pulldown_cmark::{Event, Options, Parser, Tag, TagEnd};

verus! {

/// One structural event of a markdown tokenizer, reduced to the shapes the
/// extractor reads; every other event kind is `Other` and is ignored.
#[derive(Debug)]
pub enum MdEvent {
    ItemStart,
    ItemEnd,
    LinkStart(String),
    LinkEnd,
    Text(String),
    TaskListMarker(bool),
    Other,
}

/// A discovered to-do entry.
#[derive(Debug, PartialEq)]
pub struct VTodo {
    /// Completion state from the task-list marker.
    pub checked: bool,
    /// Trimmed display text, excluding the annotation link's own label.
    pub text: String,
    /// The parsed schedule; `None` when the annotation body is malformed.
    pub agmd: Option<Agmd>,
    /// The raw annotation body, kept so malformed scheduling stays visible.
    pub raw: String,
}

/// The event stream broke the tokenizer's structural contract.
#[derive(Clone, Copy, Debug, PartialEq, Eq)]
pub enum StreamError {
    /// A task-list marker arrived while no item frame was on top.
    MarkerOutsideItem,
    /// An item closed that was never opened, or closed out of order.
    UnbalancedItem,
}

impl StreamError {
    /// A human-readable description of the failure.
    pub fn message(&self) -> (r: &'static str)
        ensures
            *self == StreamError::MarkerOutsideItem ==> r@ == "task marker should be in item"@,
            *self == StreamError::UnbalancedItem ==> r@ == "expect end of item"@,
    {
        match self {
            StreamError::MarkerOutsideItem => "task marker should be in item",
            StreamError::UnbalancedItem => "expect end of item",
        }
    }
}

/// One entry of the extractor's parse stack.
enum Frame {
    Item { checked: Option<bool>, agmd: Option<String>, text: String },
    AgmdLink,
}

/// Spec picture of a frame, with text as a character sequence.
pub enum FrameModel {
    Item { checked: Option<bool>, agmd: Option<Seq<char>>, text: Seq<char> },
    AgmdLink,
}

/// Spec picture of a task record.
pub struct TaskModel {
    pub checked: bool,
    pub text: Seq<char>,
    pub agmd: Option<Agmd>,
    pub raw: Seq<char>,
}

pub open spec fn vtodo_model(v: VTodo) -> TaskModel {
    TaskModel { checked: v.checked, text: v.text@, agmd: v.agmd, raw: v.raw@ }
}

spec fn frame_model(f: Frame) -> FrameModel {
    match f {
        Frame::Item { checked, agmd, text } => FrameModel::Item {
            checked,
            agmd: match agmd {
                None => None,
                Some(s) => Some(s@),
            },
            text: text@,
        },
        Frame::AgmdLink => FrameModel::AgmdLink,
    }
}

/// Position of the first `agmd:` marker at or after `p`.
pub open spec fn marker_from(s: Seq<char>, p: int) -> Option<int>
    decreases s.len() - p,
{
    if p + 5 > s.len() {
        None
    } else if s[p] == 'a' && s[p + 1] == 'g' && s[p + 2] == 'm' && s[p + 3] == 'd' && s[p + 4]
        == ':' {
        Some(p)
    } else {
        marker_from(s, p + 1)
    }
}

/// The annotation body of a link destination: everything after the first
/// `agmd:` marker, if one occurs.
pub open spec fn annotation_of(s: Seq<char>) -> Option<Seq<char>> {
    match marker_from(s, 0) {
        None => None,
        Some(i) => Some(s.subrange(i + 5, s.len() as int)),
    }
}

/// First index at or after `p` holding no whitespace.
pub open spec fn ws_from(s: Seq<char>, p: int) -> int
    decreases s.len() - p,
{
    if p < 0 || p >= s.len() {
        p
    } else if is_space_char(s[p]) {
        ws_from(s, p + 1)
    } else {
        p
    }
}

/// Index after the last non-whitespace character strictly before `q`.
pub open spec fn ws_back(s: Seq<char>, q: int) -> int
    decreases q,
{
    if q <= 0 || q > s.len() {
        q
    } else if is_space_char(s[q - 1]) {
        ws_back(s, q - 1)
    } else {
        q
    }
}

/// The text with leading and trailing whitespace removed.
pub open spec fn trim_spec(s: Seq<char>) -> Seq<char> {
    let i = ws_from(s, 0);
    let j = ws_back(s, s.len() as int);
    if i <= j {
        s.subrange(i, j)
    } else {
        Seq::<char>::empty()
    }
}

/// One extractor transition: the stack and output after an event.
pub open spec fn step_model(
    stack: Seq<FrameModel>,
    out: Seq<TaskModel>,
    e: MdEvent,
) -> Result<(Seq<FrameModel>, Seq<TaskModel>), StreamError> {
    match e {
        MdEvent::ItemStart => Ok(
            (
                stack.push(
                    FrameModel::Item { checked: None, agmd: None, text: Seq::<char>::empty() },
                ),
                out,
            ),
        ),
        MdEvent::ItemEnd => {
            if stack.len() == 0 {
                Err(StreamError::UnbalancedItem)
            } else {
                match stack.last() {
                    FrameModel::AgmdLink => Err(StreamError::UnbalancedItem),
                    FrameModel::Item { checked, agmd, text } => {
                        let rest = stack.drop_last();
                        match (agmd, checked) {
                            (Some(raw), Some(c)) => Ok(
                                (
                                    rest,
                                    out.push(
                                        TaskModel {
                                            checked: c,
                                            text: trim_spec(text),
                                            agmd: parse_agmd_spec(raw),
                                            raw,
                                        },
                                    ),
                                ),
                            ),
                            _ => Ok((rest, out)),
                        }
                    },
                }
            }
        },
        MdEvent::LinkStart(dest) => {
            if annotation_of(dest@) is Some && stack.len() > 0 && (stack.last()
                matches FrameModel::Item { .. }) {
                match stack.last() {
                    FrameModel::Item { checked, agmd, text } => Ok(
                        (
                            stack.update(
                                stack.len() - 1,
                                FrameModel::Item {
                                    checked,
                                    agmd: Some(annotation_of(dest@)->0),
                                    text,
                                },
                            ).push(FrameModel::AgmdLink),
                            out,
                        ),
                    ),
                    FrameModel::AgmdLink => Ok((stack, out)),
                }
            } else {
                Ok((stack, out))
            }
        },
        MdEvent::LinkEnd => {
            if stack.len() > 0 && (stack.last() matches FrameModel::AgmdLink) {
                Ok((stack.drop_last(), out))
            } else {
                Ok((stack, out))
            }
        },
        MdEvent::Text(t) => {
            if stack.len() > 0 && (stack.last() matches FrameModel::Item { .. }) {
                match stack.last() {
                    FrameModel::Item { checked, agmd, text } => Ok(
                        (
                            stack.update(
                                stack.len() - 1,
                                FrameModel::Item { checked, agmd, text: text + t@ },
                            ),
                            out,
                        ),
                    ),
                    FrameModel::AgmdLink => Ok((stack, out)),
                }
            } else {
                Ok((stack, out))
            }
        },
        MdEvent::TaskListMarker(c) => {
            if stack.len() > 0 && (stack.last() matches FrameModel::Item { .. }) {
                match stack.last() {
                    FrameModel::Item { checked, agmd, text } => Ok(
                        (
                            stack.update(
                                stack.len() - 1,
                                FrameModel::Item { checked: Some(c), agmd, text },
                            ),
                            out,
                        ),
                    ),
                    FrameModel::AgmdLink => Err(StreamError::MarkerOutsideItem),
                }
            } else {
                Err(StreamError::MarkerOutsideItem)
            }
        },
        MdEvent::Other => Ok((stack, out)),
    }
}

/// The extractor's state after a whole event prefix.
pub open spec fn run_model(evs: Seq<MdEvent>) -> Result<
    (Seq<FrameModel>, Seq<TaskModel>),
    StreamError,
>
    decreases evs.len(),
{
    if evs.len() == 0 {
        Ok((Seq::<FrameModel>::empty(), Seq::<TaskModel>::empty()))
    } else {
        match run_model(evs.drop_last()) {
            Err(e) => Err(e),
            Ok(st) => step_model(st.0, st.1, evs.last()),
        }
    }
}

/// What `extract_tasks` returns on a given event stream.
pub open spec fn extract_spec(evs: Seq<MdEvent>) -> Result<Seq<TaskModel>, StreamError> {
    match run_model(evs) {
        Err(e) => Err(e),
        Ok(st) => Ok(st.1),
    }
}

/// Once a prefix fails, the whole stream fails the same way.
proof fn lemma_run_err_prefix(evs: Seq<MdEvent>, i: int)
    requires
        0 <= i <= evs.len(),
        run_model(evs.take(i)) is Err,
    ensures
        run_model(evs) == run_model(evs.take(i)),
    decreases evs.len() - i,
{
    if i == evs.len() {
        assert(evs.take(i) =~= evs);
    } else {
        assert(evs.take(i + 1).drop_last() =~= evs.take(i));
        assert(evs.take(i + 1).last() == evs[i]);
        lemma_run_err_prefix(evs, i + 1);
    }
}

/// Finds the annotation body in a link destination.
fn find_annotation(dest: &String) -> (r: Option<String>)
    ensures
        match r {
            Some(ann) => annotation_of(dest@) == Some(ann@),
            None => annotation_of(dest@) is None,
        },
{
    let v = to_char_vec(dest.as_str());
    if v.len() < 5 {
        return None;
    }
    let mut p: usize = 0;
    while p <= v.len() - 5
        invariant
            v@ == dest@,
            v@.len() >= 5,
            p <= v@.len() - 4,
            marker_from(dest@, 0) == marker_from(dest@, p as int),
        decreases v@.len() - p,
    {
        if v[p] == 'a' && v[p + 1] == 'g' && v[p + 2] == 'm' && v[p + 3] == 'd' && v[p + 4] == ':' {
            let ann = dest.as_str().substring_char(p + 5, v.len()).to_owned();
            return Some(ann);
        }
        p = p + 1;
    }
    None
}

/// Removes leading and trailing whitespace.
fn trim_string(text: &String) -> (r: String)
    ensures
        r@ == trim_spec(text@),
{
    let n = text.as_str().unicode_len();
    let mut i: usize = 0;
    while i < n && is_space_exec(text.as_str().get_char(i))
        invariant
            n == text@.len(),
            0 <= i <= n,
            ws_from(text@, 0) == ws_from(text@, i as int),
        decreases n - i,
    {
        i = i + 1;
    }
    let mut j: usize = n;
    while j > 0 && is_space_exec(text.as_str().get_char(j - 1))
        invariant
            n == text@.len(),
            0 <= j <= n,
            ws_back(text@, n as int) == ws_back(text@, j as int),
        decreases j,
    {
        j = j - 1;
    }
    if i <= j {
        text.as_str().substring_char(i, j).to_owned()
    } else {
        String::new()
    }
}

/// Replays an event stream and collects the task records it describes, in
/// the order their items close: a nested task therefore comes out before
/// the item that encloses it.  An event stream that breaks the tokenizer's
/// structural contract is reported as an error.
#[verifier::loop_isolation(false)]
pub fn extract_tasks(events: &Vec<MdEvent>) -> (r: Result<Vec<VTodo>, StreamError>)
    ensures
        match r {
            Ok(ts) => extract_spec(events@) == Ok::<Seq<TaskModel>, StreamError>(
                ts@.map_values(|t: VTodo| vtodo_model(t)),
            ),
            Err(e) => extract_spec(events@) == Err::<Seq<TaskModel>, StreamError>(e),
        },
        r matches Ok(ts) ==> forall|k: int|
            0 <= k < ts@.len() ==> (#[trigger] ts@[k].agmd matches Some(ag) ==> agmd_wf(ag)),
{
    let mut stack: Vec<Frame> = Vec::new();
    let mut out: Vec<VTodo> = Vec::new();
    let mut i: usize = 0;
    proof {
        assert(events@.take(0) =~= Seq::<MdEvent>::empty());
        assert(stack@.map_values(|f: Frame| frame_model(f)) =~= Seq::<FrameModel>::empty());
        assert(out@.map_values(|t: VTodo| vtodo_model(t)) =~= Seq::<TaskModel>::empty());
    }
    while i < events.len()
        invariant
            0 <= i <= events@.len(),
            run_model(events@.take(i as int)) == Ok::<
                (Seq<FrameModel>, Seq<TaskModel>),
                StreamError,
            >(
                (
                    stack@.map_values(|f: Frame| frame_model(f)),
                    out@.map_values(|t: VTodo| vtodo_model(t)),
                ),
            ),
            forall|k: int|
                0 <= k < out@.len() ==> (#[trigger] out@[k].agmd matches Some(ag) ==> agmd_wf(
                    ag,
                )),
        decreases events@.len() - i,
    {
        let ghost pre_stack = stack@.map_values(|f: Frame| frame_model(f));
        let ghost pre_out = out@.map_values(|t: VTodo| vtodo_model(t));
        proof {
            assert(events@.take(i + 1).drop_last() =~= events@.take(i as int));
            assert(events@.take(i + 1).last() == events@[i as int]);
        }
        match &events[i] {
            MdEvent::ItemStart => {
                stack.push(
                    Frame::Item { checked: None, agmd: None, text: String::new() },
                );
                proof {
                    assert(stack@.map_values(|f: Frame| frame_model(f)) =~= pre_stack.push(
                        FrameModel::Item { checked: None, agmd: None, text: Seq::<char>::empty() },
                    ));
                }
            },
            MdEvent::ItemEnd => {
                match stack.pop() {
                    None => {
                        proof {
                            lemma_run_err_prefix(events@, i + 1);
                        }
                        return Err(StreamError::UnbalancedItem);
                    },
                    Some(Frame::AgmdLink) => {
                        proof {
                            assert(pre_stack.last() == FrameModel::AgmdLink);
                            lemma_run_err_prefix(events@, i + 1);
                        }
                        return Err(StreamError::UnbalancedItem);
                    },
                    Some(Frame::Item { checked, agmd, text }) => {
                        let ghost popped_model = FrameModel::Item {
                            checked,
                            agmd: match agmd {
                                None => None,
                                Some(ref a) => Some(a@),
                            },
                            text: text@,
                        };
                        proof {
                            assert(pre_stack.last() == popped_model);
                            assert(stack@.map_values(|f: Frame| frame_model(f))
                                =~= pre_stack.drop_last());
                        }
                        match (agmd, checked) {
                            (Some(raw), Some(c)) => {
                                let ghost raw_seq = raw@;
                                let ghost text_seq = text@;
                                let trimmed = trim_string(&text);
                                let parsed = parse_agmd(raw.as_str());
                                out.push(VTodo { checked: c, text: trimmed, agmd: parsed, raw });
                                proof {
                                    assert(out@.map_values(|t: VTodo| vtodo_model(t))
                                        =~= pre_out.push(
                                        TaskModel {
                                            checked: c,
                                            text: trim_spec(text_seq),
                                            agmd: parse_agmd_spec(raw_seq),
                                            raw: raw_seq,
                                        },
                                    ));
                                }
                            },
                            (Some(_), None) => {},
                            (None, _) => {},
                        }
                    },
                }
            },
            MdEvent::LinkStart(dest) => {
                match find_annotation(dest) {
                    None => {},
                    Some(ann) => {
                        let ghost ann_seq = ann@;
                        if stack.len() > 0 {
                            match stack.pop().unwrap() {
                                Frame::Item { checked, agmd: _, text } => {
                                    let ghost checked0 = checked;
                                    let ghost text_seq = text@;
                                    stack.push(
                                        Frame::Item { checked, agmd: Some(ann), text },
                                    );
                                    stack.push(Frame::AgmdLink);
                                    proof {
                                        assert(stack@.map_values(|f: Frame| frame_model(f))
                                            =~= pre_stack.update(
                                            pre_stack.len() - 1,
                                            FrameModel::Item {
                                                checked: checked0,
                                                agmd: Some(ann_seq),
                                                text: text_seq,
                                            },
                                        ).push(FrameModel::AgmdLink));
                                    }
                                },
                                Frame::AgmdLink => {
                                    stack.push(Frame::AgmdLink);
                                    proof {
                                        assert(stack@.map_values(|f: Frame| frame_model(f))
                                            =~= pre_stack);
                                    }
                                },
                            }
                        }
                    },
                }
            },
            MdEvent::LinkEnd => {
                if stack.len() > 0 {
                    match stack.pop().unwrap() {
                        Frame::AgmdLink => {
                            proof {
                                assert(stack@.map_values(|f: Frame| frame_model(f))
                                    =~= pre_stack.drop_last());
                            }
                        },
                        Frame::Item { checked, agmd, text } => {
                            stack.push(Frame::Item { checked, agmd, text });
                            proof {
                                assert(stack@.map_values(|f: Frame| frame_model(f)) =~= pre_stack);
                            }
                        },
                    }
                }
            },
            MdEvent::Text(t) => {
                if stack.len() > 0 {
                    match stack.pop().unwrap() {
                        Frame::Item { checked, agmd, mut text } => {
                            let ghost checked0 = checked;
                            let ghost agmd_seq: Option<Seq<char>> = match agmd {
                                None => None,
                                Some(ref a) => Some(a@),
                            };
                            let ghost text_seq = text@;
                            text.append(t.as_str());
                            stack.push(Frame::Item { checked, agmd, text });
                            proof {
                                assert(stack@.map_values(|f: Frame| frame_model(f))
                                    =~= pre_stack.update(
                                    pre_stack.len() - 1,
                                    FrameModel::Item {
                                        checked: checked0,
                                        agmd: agmd_seq,
                                        text: text_seq + t@,
                                    },
                                ));
                            }
                        },
                        Frame::AgmdLink => {
                            stack.push(Frame::AgmdLink);
                            proof {
                                assert(stack@.map_values(|f: Frame| frame_model(f)) =~= pre_stack);
                            }
                        },
                    }
                }
            },
            MdEvent::TaskListMarker(c) => {
                if stack.len() == 0 {
                    proof {
                        lemma_run_err_prefix(events@, i + 1);
                    }
                    return Err(StreamError::MarkerOutsideItem);
                }
                match stack.pop().unwrap() {
                    Frame::Item { checked: _, agmd, text } => {
                        let ghost agmd_seq: Option<Seq<char>> = match agmd {
                            None => None,
                            Some(ref a) => Some(a@),
                        };
                        let ghost text_seq = text@;
                        stack.push(Frame::Item { checked: Some(*c), agmd, text });
                        proof {
                            assert(stack@.map_values(|f: Frame| frame_model(f))
                                =~= pre_stack.update(
                                pre_stack.len() - 1,
                                FrameModel::Item {
                                    checked: Some(*c),
                                    agmd: agmd_seq,
                                    text: text_seq,
                                },
                            ));
                        }
                    },
                    Frame::AgmdLink => {
                        proof {
                            assert(pre_stack.last() == FrameModel::AgmdLink);
                            lemma_run_err_prefix(events@, i + 1);
                        }
                        return Err(StreamError::MarkerOutsideItem);
                    },
                }
            },
            MdEvent::Other => {},
        }
        i = i + 1;
    }
    proof {
        assert(events@.take(i as int) =~= events@);
    }
    Ok(out)
}

/// The event stream a document tokenizes to.  Tokenization is a function of
/// the document text alone, so its result carries a name that contracts can
/// speak of; nothing is assumed about the events themselves.
pub uninterp spec fn tokens_of(s: Seq<char>) -> Seq<MdEvent>;

/// Relies on pulldown_cmark's `Parser` with all options enabled: tokenizes
/// the document into structural events, a deterministic function of the
/// text; each event is reduced to the extractor's event shape, every other
/// kind becoming `Other`.
#[verifier::external_body]
fn tokenize(input: &str) -> (r: Vec<MdEvent>)
    ensures
        r@ == tokens_of(input@),
{
    let mut out = Vec::new();
    for ev in Parser::new_ext(input, Options::all()) {
        out.push(match ev {
            Event::Start(Tag::Item) => MdEvent::ItemStart,
            Event::End(TagEnd::Item) => MdEvent::ItemEnd,
            Event::Start(Tag::Link { dest_url, .. }) => MdEvent::LinkStart(dest_url.to_string()),
            Event::End(TagEnd::Link) => MdEvent::LinkEnd,
            Event::Text(t) => MdEvent::Text(t.to_string()),
            Event::TaskListMarker(b) => MdEvent::TaskListMarker(b),
            _ => MdEvent::Other,
        });
    }
    out
}

/// Parses a markdown document and extracts its annotated task records: the
/// document is tokenized by the external markdown parser, and the verified
/// extractor replays the resulting events.
pub fn parse_markdown(input: &str) -> (r: Result<Vec<VTodo>, StreamError>)
    ensures
        match r {
            Ok(ts) => extract_spec(tokens_of(input@)) == Ok::<Seq<TaskModel>, StreamError>(
                ts@.map_values(|t: VTodo| vtodo_model(t)),
            ),
            Err(e) => extract_spec(tokens_of(input@)) == Err::<Seq<TaskModel>, StreamError>(e),
        },
        r matches Ok(ts) ==> forall|k: int|
            0 <= k < ts@.len() ==> (#[trigger] ts@[k].agmd matches Some(ag) ==> agmd_wf(ag)),
{
    let events = tokenize(input);
    extract_tasks(&events)
}

/// The one-line display form of a task record:
/// `- [x] text <agmd:body>`, with a space in the box for an open task.
pub open spec fn render_vtodo_spec(checked: bool, text: Seq<char>, agmd: Option<Agmd>) -> Seq<
    char,
> {
    (if checked {
        seq!['-', ' ', '[', 'x', ']', ' ']
    } else {
        seq!['-', ' ', '[', ' ', ']', ' ']
    }) + text + seq![' ', '<', 'a', 'g', 'm', 'd', ':'] + agmd_body_spec(agmd) + seq!['>']
}

impl VTodo {
    /// Renders the record for display.
    #[verifier::rlimit(100)]
    #[verifier::spinoff_prover]
    pub fn render(&self) -> (r: String)
        requires
            self.agmd matches Some(ag) ==> agmd_wf(ag),
        ensures
            r@ == render_vtodo_spec(self.checked, self.text@, self.agmd),
    {
        let mut out = String::new();
        proof {
            reveal_strlit("- [x] ");
            reveal_strlit("- [ ] ");
            reveal_strlit(" <agmd:");
            reveal_strlit(">");
            assert(("- [x] ")@ =~= seq!['-', ' ', '[', 'x', ']', ' ']);
            assert(("- [ ] ")@ =~= seq!['-', ' ', '[', ' ', ']', ' ']);
            assert((" <agmd:")@ =~= seq![' ', '<', 'a', 'g', 'm', 'd', ':']);
            assert((">")@ =~= seq!['>']);
        }
        if self.checked {
            out.append("- [x] ");
        } else {
            out.append("- [ ] ");
        }
        out.append(self.text.as_str());
        out.append(" <agmd:");
        push_agmd_body(&mut out, &self.agmd);
        out.append(">");
        proof {
            assert(out@ =~= render_vtodo_spec(self.checked, self.text@, self.agmd));
        }
        out
    }
}

} // verus!
