//! Workspace records and the parsers for the window manager's textual
//! workspace listing and active-window report.

use vstd::prelude::*;
use vstd::string::StrSliceExecFns;

use crate::text::{
    chars_of, has_prefix, lemma_split_on_sep_gives_two, lines_of, parse_i32_at, parse_i32_spec, parse_u32_at, parse_u32_spec,
    split_on, split_ranges, starts_with_at, trim, trim_range, word_ranges, words_of,
};

verus! {

/// One workspace as the window manager reports it.
#[derive(Debug, Clone)]
pub struct Workspace {
    id: i32,
    name: String,
    monitor_id: u32,
    active: bool,
}

/// The mathematical content of a [`Workspace`].
pub struct WorkspaceView {
    pub id: i32,
    pub name: Seq<char>,
    pub monitor_id: u32,
    pub active: bool,
}

impl View for Workspace {
    type V = WorkspaceView;

    closed spec fn view(&self) -> WorkspaceView {
        WorkspaceView {
            id: self.id,
            name: self.name@,
            monitor_id: self.monitor_id,
            active: self.active,
        }
    }
}

impl Workspace {
    pub fn new(id: i32, name: String, monitor_id: u32, active: bool) -> (r: Workspace)
        ensures
            r@ == (WorkspaceView { id, name: name@, monitor_id, active }),
    {
        Workspace { id, name, monitor_id, active }
    }

    pub fn id(&self) -> (r: i32)
        ensures
            r == self@.id,
    {
        self.id
    }

    pub fn name(&self) -> (r: &String)
        ensures
            r@ == self@.name,
    {
        &self.name
    }

    pub fn monitor_id(&self) -> (r: u32)
        ensures
            r == self@.monitor_id,
    {
        self.monitor_id
    }

    pub fn active(&self) -> (r: bool)
        ensures
            r == self@.active,
    {
        self.active
    }

    /// The same workspace with its `active` flag replaced.
    pub fn with_active(self, active: bool) -> (r: Workspace)
        ensures
            r@ == (WorkspaceView { active, ..self@ }),
    {
        Workspace { active, ..self }
    }
}

/// The views of a sequence of workspaces.
pub open spec fn views(ws: Seq<Workspace>) -> Seq<WorkspaceView> {
    ws.map_values(|w: Workspace| w@)
}

/// The id and name that a header line such as `workspace ID 3 (work) on monitor DP-1:`
/// gives: the third word is the id; the name is the fourth word without its
/// parentheses when it is parenthesized, and the id's text otherwise.
pub open spec fn header_of(l: Seq<char>) -> Option<(i32, Seq<char>)> {
    let w = words_of(l);
    if has_prefix(l, "workspace ID"@) && w.len() >= 4 && parse_i32_spec(w[2]) is Some {
        let t = w[3];
        let name = if t.len() >= 2 && t[0] == '(' && t.last() == ')' {
            t.subrange(1, t.len() - 1)
        } else {
            w[2]
        };
        Some((parse_i32_spec(w[2])->0, name))
    } else {
        None
    }
}

/// The value of a `key: value` line that starts with `prefix` and holds no
/// other colon.
pub open spec fn keyed_value(l: Seq<char>, prefix: Seq<char>) -> Option<Seq<char>> {
    let p = split_on(l, ':');
    if has_prefix(l, prefix) && p.len() == 2 {
        Some(trim(p[1]))
    } else {
        None
    }
}

/// The monitor id that a line `\tmonitorID: <n>` gives.
pub open spec fn monitor_of(l: Seq<char>) -> Option<u32> {
    match keyed_value(l, "\tmonitorID:"@) {
        Some(v) => parse_u32_spec(v),
        None => None,
    }
}

/// The flag that a line `\tactive: <v>` gives: set exactly when the value is `1`.
pub open spec fn active_of(l: Seq<char>) -> Option<bool> {
    match keyed_value(l, "\tactive:"@) {
        Some(v) => Some(v == "1"@),
        None => None,
    }
}

/// The last header of a block of lines.
pub open spec fn last_header(ls: Seq<Seq<char>>) -> Option<(i32, Seq<char>)>
    decreases ls.len(),
{
    if ls.len() == 0 {
        None
    } else if header_of(ls.last()) is Some {
        header_of(ls.last())
    } else {
        last_header(ls.drop_last())
    }
}

/// The last monitor id of a block of lines.
pub open spec fn last_monitor(ls: Seq<Seq<char>>) -> Option<u32>
    decreases ls.len(),
{
    if ls.len() == 0 {
        None
    } else if monitor_of(ls.last()) is Some {
        monitor_of(ls.last())
    } else {
        last_monitor(ls.drop_last())
    }
}

/// The last active flag of a block of lines.
pub open spec fn last_active(ls: Seq<Seq<char>>) -> Option<bool>
    decreases ls.len(),
{
    if ls.len() == 0 {
        None
    } else if active_of(ls.last()) is Some {
        active_of(ls.last())
    } else {
        last_active(ls.drop_last())
    }
}

/// Why a block of the listing gives no workspace.
#[derive(Debug, Clone, Copy, PartialEq, Eq, Structural)]
pub enum WorkspaceParseError {
    /// No well-formed `workspace ID <id> <name>` line.
    MissingHeader,
    /// No well-formed `monitorID: <n>` line.
    MissingMonitor,
}

/// The workspace that a block of lines describes. Where a block holds several
/// well-formed lines of one kind, the last one counts; a block without an
/// `active` line is inactive.
pub open spec fn block_spec(ls: Seq<Seq<char>>) -> Result<WorkspaceView, WorkspaceParseError> {
    match last_header(ls) {
        None => Err(WorkspaceParseError::MissingHeader),
        Some(h) => match last_monitor(ls) {
            None => Err(WorkspaceParseError::MissingMonitor),
            Some(m) => Ok(
                WorkspaceView {
                    id: h.0,
                    name: h.1,
                    monitor_id: m,
                    active: match last_active(ls) {
                        Some(a) => a,
                        None => false,
                    },
                },
            ),
        },
    }
}

/// The header that the line `v[lo..hi]` gives, with its name as a range of `v`.
fn header_at(v: &Vec<char>, lo: usize, hi: usize) -> (r: Option<(i32, usize, usize)>)
    requires
        lo <= hi <= v.len(),
    ensures
        match r {
            Some((id, a, b)) => a <= b <= v.len() && header_of(v@.subrange(lo as int, hi as int))
                == Some((id, v@.subrange(a as int, b as int))),
            None => header_of(v@.subrange(lo as int, hi as int)) is None,
        },
{
    let prefix = chars_of("workspace ID");
    if !starts_with_at(v, lo, hi, &prefix) {
        return None;
    }
    let w = word_ranges(v, lo, hi);
    if w.len() < 4 {
        return None;
    }
    let (a2, b2) = w[2];
    let (a3, b3) = w[3];
    let id = match parse_i32_at(v, a2, b2) {
        Some(id) => id,
        None => {
            return None;
        },
    };
    let ghost t = v@.subrange(a3 as int, b3 as int);
    if b3 - a3 >= 2 && v[a3] == '(' && v[b3 - 1] == ')' {
        proof {
            assert(t.subrange(1, t.len() - 1) =~= v@.subrange(a3 + 1, b3 - 1));
        }
        Some((id, a3 + 1, b3 - 1))
    } else {
        Some((id, a2, b2))
    }
}

/// The trimmed value of the line `v[lo..hi]` when it starts with `prefix` and
/// holds exactly one colon, as a range of `v`.
fn keyed_value_at(v: &Vec<char>, lo: usize, hi: usize, prefix: &Vec<char>) -> (r: Option<
    (usize, usize),
>)
    requires
        lo <= hi <= v.len(),
    ensures
        match r {
            Some((a, b)) => a <= b <= v.len() && keyed_value(
                v@.subrange(lo as int, hi as int),
                prefix@,
            ) == Some(v@.subrange(a as int, b as int)),
            None => keyed_value(v@.subrange(lo as int, hi as int), prefix@) is None,
        },
{
    if !starts_with_at(v, lo, hi, prefix) {
        return None;
    }
    let parts = split_ranges(v, lo, hi, ':');
    if parts.len() != 2 {
        return None;
    }
    let (a, b) = parts[1];
    let t = trim_range(v, a, b);
    Some(t)
}

fn monitor_at(v: &Vec<char>, lo: usize, hi: usize) -> (r: Option<u32>)
    requires
        lo <= hi <= v.len(),
    ensures
        r == monitor_of(v@.subrange(lo as int, hi as int)),
{
    let prefix = chars_of("\tmonitorID:");
    match keyed_value_at(v, lo, hi, &prefix) {
        Some((a, b)) => parse_u32_at(v, a, b),
        None => None,
    }
}

fn active_at(v: &Vec<char>, lo: usize, hi: usize) -> (r: Option<bool>)
    requires
        lo <= hi <= v.len(),
    ensures
        r == active_of(v@.subrange(lo as int, hi as int)),
{
    let prefix = chars_of("\tactive:");
    match keyed_value_at(v, lo, hi, &prefix) {
        Some((a, b)) => {
            let one = chars_of("1");
            let ghost s = v@.subrange(a as int, b as int);
            let same = b - a == one.len() && starts_with_at(v, a, b, &one);
            proof {
                if b - a == one.len() {
                    assert(s.take(one.len() as int) =~= s);
                }
            }
            Some(same)
        },
        None => None,
    }
}

/// The well-formed lines of one kind seen so far in a block, with the header's
/// name kept as a range of the text.
struct BlockFields {
    header: Option<(i32, usize, usize)>,
    monitor: Option<u32>,
    active: Option<bool>,
}

spec fn fields_match(v: Seq<char>, f: BlockFields, ls: Seq<Seq<char>>) -> bool {
    &&& match f.header {
        Some((id, a, b)) => a <= b <= v.len() && last_header(ls) == Some(
            (id, v.subrange(a as int, b as int)),
        ),
        None => last_header(ls) is None,
    }
    &&& f.monitor == last_monitor(ls)
    &&& f.active == last_active(ls)
}

fn empty_fields() -> (f: BlockFields)
    ensures
        forall|v: Seq<char>| fields_match(v, f, Seq::empty()),
{
    BlockFields { header: None, monitor: None, active: None }
}

/// Folds the line `v[lo..hi]` into the fields of the block `ls` it ends.
fn absorb_line(v: &Vec<char>, lo: usize, hi: usize, f: &mut BlockFields, Ghost(ls): Ghost<
    Seq<Seq<char>>,
>)
    requires
        lo <= hi <= v.len(),
        fields_match(v@, *old(f), ls),
    ensures
        fields_match(v@, *final(f), ls.push(v@.subrange(lo as int, hi as int))),
{
    let ghost l = v@.subrange(lo as int, hi as int);
    proof {
        assert(ls.push(l).drop_last() =~= ls);
        assert(ls.push(l).last() == l);
    }
    let h = header_at(v, lo, hi);
    if h.is_some() {
        f.header = h;
    }
    let m = monitor_at(v, lo, hi);
    if m.is_some() {
        f.monitor = m;
    }
    let a = active_at(v, lo, hi);
    if a.is_some() {
        f.active = a;
    }
}

/// The workspace that the fields of a finished block give.
fn finish_block(text: &str, v: &Vec<char>, f: &BlockFields, Ghost(ls): Ghost<Seq<Seq<char>>>) -> (r:
    Result<Workspace, WorkspaceParseError>)
    requires
        v@ == text@,
        fields_match(v@, *f, ls),
    ensures
        match r {
            Ok(w) => block_spec(ls) == Ok::<WorkspaceView, WorkspaceParseError>(w@),
            Err(e) => block_spec(ls) == Err::<WorkspaceView, WorkspaceParseError>(e),
        },
{
    match f.header {
        None => Err(WorkspaceParseError::MissingHeader),
        Some((id, a, b)) => match f.monitor {
            None => Err(WorkspaceParseError::MissingMonitor),
            Some(monitor_id) => {
                let name = text.substring_char(a, b).to_owned();
                let active = match f.active {
                    Some(x) => x,
                    None => false,
                };
                Ok(Workspace { id, name, monitor_id, active })
            },
        },
    }
}

impl Workspace {
    /// Parses one block of the workspace listing, every line of `s` counting
    /// as part of the block.
    pub fn parse_block(s: &str) -> (r: Result<Workspace, WorkspaceParseError>)
        ensures
            match r {
                Ok(w) => block_spec(lines_of(s@)) == Ok::<WorkspaceView, WorkspaceParseError>(w@),
                Err(e) => block_spec(lines_of(s@)) == Err::<WorkspaceView, WorkspaceParseError>(e),
            },
    {
        let v = chars_of(s);
        let lines = split_ranges(&v, 0, v.len(), '\n');
        let ghost all = lines_of(v@);
        proof {
            assert(v@.subrange(0, v.len() as int) =~= v@);
        }
        let mut f = empty_fields();
        let mut k: usize = 0;
        proof {
            assert(all.take(0) =~= Seq::<Seq<char>>::empty());
        }
        while k < lines.len()
            invariant
                v@ == s@,
                lines.len() == all.len(),
                forall|j: int|
                    #![trigger lines@[j]]
                    0 <= j < lines.len() ==> {
                        &&& lines[j].0 <= lines[j].1 <= v.len()
                        &&& v@.subrange(lines[j].0 as int, lines[j].1 as int) == all[j]
                    },
                k <= lines.len(),
                fields_match(v@, f, all.take(k as int)),
            decreases lines.len() - k,
        {
            let (lo, hi) = lines[k];
            proof {
                assert(lines@[k as int] == (lo, hi));
                assert(all.take(k + 1) =~= all.take(k as int).push(all[k as int]));
            }
            absorb_line(&v, lo, hi, &mut f, Ghost(all.take(k as int)));
            k = k + 1;
        }
        proof {
            assert(all.take(k as int) =~= all);
        }
        finish_block(s, &v, &f, Ghost(all))
    }

    /// A copy of this workspace.
    pub fn duplicate(&self) -> (r: Workspace)
        ensures
            r@ == self@,
    {
        Workspace {
            id: self.id,
            name: self.name.clone(),
            monitor_id: self.monitor_id,
            active: self.active,
        }
    }
}

/// A line with nothing but whitespace on it.
pub open spec fn is_blank(l: Seq<char>) -> bool {
    trim(l).len() == 0
}

/// The blocks of a listing: the runs of lines between blank lines (some of
/// them empty).
pub open spec fn blocks_of(ls: Seq<Seq<char>>) -> Seq<Seq<Seq<char>>>
    decreases ls.len(),
{
    if ls.len() == 0 {
        seq![Seq::empty()]
    } else {
        let r = blocks_of(ls.drop_last());
        if is_blank(ls.last()) {
            r.push(Seq::empty())
        } else {
            r.update(r.len() - 1, r.last().push(ls.last()))
        }
    }
}

pub proof fn lemma_blocks_of_nonempty(ls: Seq<Seq<char>>)
    ensures
        blocks_of(ls).len() >= 1,
    decreases ls.len(),
{
    if ls.len() > 0 {
        lemma_blocks_of_nonempty(ls.drop_last());
    }
}

/// The workspaces of the well-formed blocks, in order; malformed blocks are
/// left out.
pub open spec fn parsed_blocks(bs: Seq<Seq<Seq<char>>>) -> Seq<WorkspaceView>
    decreases bs.len(),
{
    if bs.len() == 0 {
        Seq::empty()
    } else {
        let r = parsed_blocks(bs.drop_last());
        match block_spec(bs.last()) {
            Ok(w) => r.push(w),
            Err(_) => r,
        }
    }
}

/// `ws` without every workspace whose id an earlier one already has.
pub open spec fn unique_by_id(ws: Seq<WorkspaceView>) -> Seq<WorkspaceView>
    decreases ws.len(),
{
    if ws.len() == 0 {
        Seq::empty()
    } else {
        let r = unique_by_id(ws.drop_last());
        if exists|j: int| 0 <= j < r.len() && r[j].id == ws.last().id {
            r
        } else {
            r.push(ws.last())
        }
    }
}

/// The workspaces that a whole listing describes: one per well-formed block,
/// the first of each id.
pub open spec fn listing_spec(s: Seq<char>) -> Seq<WorkspaceView> {
    unique_by_id(parsed_blocks(blocks_of(lines_of(s))))
}

/// No two workspaces of `ws` share an id.
pub open spec fn ids_unique(ws: Seq<WorkspaceView>) -> bool {
    forall|i: int, j: int| 0 <= i < j < ws.len() ==> ws[i].id != ws[j].id
}

/// Appends `w` unless a workspace with its id is already there.
fn push_unique(out: &mut Vec<Workspace>, w: Workspace)
    ensures
        views(final(out)@) == (if exists|j: int|
            0 <= j < views(old(out)@).len() && views(old(out)@)[j].id == w@.id {
            views(old(out)@)
        } else {
            views(old(out)@).push(w@)
        }),
{
    let mut j: usize = 0;
    while j < out.len()
        invariant
            j <= out.len(),
            forall|i: int| 0 <= i < j ==> out@[i]@.id != w@.id,
        decreases out.len() - j,
    {
        if out[j].id == w.id {
            proof {
                assert(views(out@)[j as int].id == w@.id);
            }
            return;
        }
        j = j + 1;
    }
    let ghost before = out@;
    out.push(w);
    proof {
        assert(views(out@) =~= views(before).push(w@));
    }
}

/// Parses the window manager's workspace listing: blocks are separated by
/// blank lines, malformed blocks are skipped, and of several blocks with one id
/// the first is kept.
pub fn parse_workspace_listing(s: &str) -> (r: Vec<Workspace>)
    ensures
        views(r@) == listing_spec(s@),
{
    let v = chars_of(s);
    let lines = split_ranges(&v, 0, v.len(), '\n');
    let ghost all = lines_of(v@);
    proof {
        assert(v@.subrange(0, v.len() as int) =~= v@);
        assert(all.take(0) =~= Seq::<Seq<char>>::empty());
    }
    let mut out: Vec<Workspace> = Vec::new();
    let mut f = empty_fields();
    let mut k: usize = 0;
    while k < lines.len()
        invariant
            v@ == s@,
            lines.len() == all.len(),
            forall|j: int|
                #![trigger lines@[j]]
                0 <= j < lines.len() ==> {
                    &&& lines[j].0 <= lines[j].1 <= v.len()
                    &&& v@.subrange(lines[j].0 as int, lines[j].1 as int) == all[j]
                },
            k <= lines.len(),
            blocks_of(all.take(k as int)).len() >= 1,
            views(out@) == unique_by_id(parsed_blocks(blocks_of(all.take(k as int)).drop_last())),
            fields_match(v@, f, blocks_of(all.take(k as int)).last()),
        decreases lines.len() - k,
    {
        let (lo, hi) = lines[k];
        let ghost bs = blocks_of(all.take(k as int));
        let ghost l = v@.subrange(lo as int, hi as int);
        proof {
            assert(lines@[k as int] == (lo, hi));
            assert(all.take(k + 1).drop_last() =~= all.take(k as int));
            assert(all.take(k + 1).last() == l);
            lemma_blocks_of_nonempty(all.take(k + 1));
        }
        let (a, b) = trim_range(&v, lo, hi);
        if a == b {
            let done = finish_block(s, &v, &f, Ghost(bs.last()));
            proof {
                let nbs = blocks_of(all.take(k + 1));
                assert(nbs == bs.push(Seq::empty()));
                assert(nbs.drop_last() == bs);
                assert(bs.drop_last().push(bs.last()) =~= bs);
                assert(bs.drop_last() == bs.take(bs.len() - 1));
            }
            match done {
                Ok(w) => {
                    let ghost wv = w@;
                    let ghost pb = parsed_blocks(bs.drop_last());
                    proof {
                        assert(pb.push(wv).drop_last() =~= pb);
                    }
                    push_unique(&mut out, w);
                    proof {
                        assert(parsed_blocks(bs) == pb.push(wv));
                    }
                },
                Err(_) => {},
            }
            f = empty_fields();
            proof {
                let nbs = blocks_of(all.take(k + 1));
                assert(nbs.last() == Seq::<Seq<char>>::empty());
            }
        } else {
            proof {
                let nbs = blocks_of(all.take(k + 1));
                assert(nbs == bs.update(bs.len() - 1, bs.last().push(l)));
                assert(nbs.drop_last() =~= bs.drop_last());
            }
            absorb_line(&v, lo, hi, &mut f, Ghost(bs.last()));
        }
        k = k + 1;
    }
    let ghost bs = blocks_of(all.take(k as int));
    proof {
        assert(all.take(k as int) =~= all);
        assert(bs.drop_last().push(bs.last()) =~= bs);
    }
    let done = finish_block(s, &v, &f, Ghost(bs.last()));
    match done {
        Ok(w) => {
            let ghost wv = w@;
            let ghost pb = parsed_blocks(bs.drop_last());
            proof {
                assert(pb.push(wv).drop_last() =~= pb);
            }
            push_unique(&mut out, w);
            proof {
                assert(parsed_blocks(bs) == pb.push(wv));
            }
        },
        Err(_) => {},
    }
    out
}

/// The active workspace that the window manager's active-window report names.
#[derive(Debug, Clone, Copy, PartialEq, Eq, Structural)]
pub struct ActiveWorkspace {
    id: i32,
}

impl View for ActiveWorkspace {
    type V = i32;

    closed spec fn view(&self) -> i32 {
        self.id
    }
}

/// Why an active-window report names no workspace.
#[derive(Debug, Clone, Copy, PartialEq, Eq, Structural)]
pub enum ActiveWorkspaceError {
    /// No line starts with `\tworkspace:`.
    NotFound,
    /// The first such line holds nothing after its colon.
    MissingId,
    /// The first word after its colon is not a 32-bit integer.
    InvalidId,
}

/// The first line that starts with `\tworkspace:`.
pub open spec fn first_workspace_line(ls: Seq<Seq<char>>) -> Option<Seq<char>>
    decreases ls.len(),
{
    if ls.len() == 0 {
        None
    } else if has_prefix(ls[0], "\tworkspace:"@) {
        Some(ls[0])
    } else {
        first_workspace_line(ls.skip(1))
    }
}

/// The id of the active workspace in a report: the first word after the colon
/// of the first `\tworkspace:` line (as in `\tworkspace: 5 (5)`).
pub open spec fn active_workspace_spec(s: Seq<char>) -> Result<i32, ActiveWorkspaceError> {
    match first_workspace_line(lines_of(s)) {
        None => Err(ActiveWorkspaceError::NotFound),
        Some(l) => {
            let w = words_of(split_on(l, ':')[1]);
            if w.len() == 0 {
                Err(ActiveWorkspaceError::MissingId)
            } else {
                match parse_i32_spec(w[0]) {
                    Some(id) => Ok(id),
                    None => Err(ActiveWorkspaceError::InvalidId),
                }
            }
        },
    }
}

/// The active workspace id that a report gives, if any.
pub open spec fn active_id_spec(report: Option<Seq<char>>) -> Option<i32> {
    match report {
        Some(t) => match active_workspace_spec(t) {
            Ok(id) => Some(id),
            Err(_) => None,
        },
        None => None,
    }
}

impl ActiveWorkspace {
    pub fn new(id: i32) -> (r: ActiveWorkspace)
        ensures
            r@ == id,
    {
        ActiveWorkspace { id }
    }

    pub fn id(&self) -> (r: i32)
        ensures
            r == self@,
    {
        self.id
    }

    /// Parses the window manager's active-window report.
    pub fn parse(s: &str) -> (r: Result<ActiveWorkspace, ActiveWorkspaceError>)
        ensures
            match r {
                Ok(a) => active_workspace_spec(s@) == Ok::<i32, ActiveWorkspaceError>(a@),
                Err(e) => active_workspace_spec(s@) == Err::<i32, ActiveWorkspaceError>(e),
            },
    {
        let v = chars_of(s);
        let lines = split_ranges(&v, 0, v.len(), '\n');
        let ghost all = lines_of(v@);
        let prefix = chars_of("\tworkspace:");
        proof {
            assert(v@.subrange(0, v.len() as int) =~= v@);
            assert(all.skip(0) =~= all);
        }
        let mut k: usize = 0;
        while k < lines.len()
            invariant
                v@ == s@,
                all == lines_of(v@),
                prefix@ == "\tworkspace:"@,
                lines.len() == all.len(),
                forall|j: int|
                    #![trigger lines@[j]]
                    0 <= j < lines.len() ==> {
                        &&& lines[j].0 <= lines[j].1 <= v.len()
                        &&& v@.subrange(lines[j].0 as int, lines[j].1 as int) == all[j]
                    },
                k <= lines.len(),
                first_workspace_line(all) == first_workspace_line(all.skip(k as int)),
            decreases lines.len() - k,
        {
            let (lo, hi) = lines[k];
            proof {
                assert(lines@[k as int] == (lo, hi));
                assert(all.skip(k as int)[0] == all[k as int]);
                assert(all.skip(k as int).skip(1) =~= all.skip(k + 1));
            }
            if starts_with_at(&v, lo, hi, &prefix) {
                let ghost l = v@.subrange(lo as int, hi as int);
                proof {
                    assert(all[k as int] == l);
                    assert(first_workspace_line(all) == Some(l));
                    reveal_strlit("\tworkspace:");
                    assert(l[10] == prefix@[10]);
                    lemma_split_on_sep_gives_two(l, ':', 10);
                }
                let parts = split_ranges(&v, lo, hi, ':');
                let (a, b) = parts[1];
                proof {
                    assert(parts@[1] == (a, b));
                    assert(v@.subrange(a as int, b as int) == split_on(l, ':')[1]);
                }
                let w = word_ranges(&v, a, b);
                if w.len() == 0 {
                    return Err(ActiveWorkspaceError::MissingId);
                }
                let (c, d) = w[0];
                proof {
                    assert(w@[0] == (c, d));
                }
                return match parse_i32_at(&v, c, d) {
                    Some(id) => Ok(ActiveWorkspace { id }),
                    None => Err(ActiveWorkspaceError::InvalidId),
                };
            }
            k = k + 1;
        }
        Err(ActiveWorkspaceError::NotFound)
    }
}

/// `ws` with exactly the workspace whose id is `active` marked active.
pub open spec fn mark_active_spec(ws: Seq<WorkspaceView>, active: Option<i32>) -> Seq<WorkspaceView> {
    Seq::new(ws.len(), |i: int| WorkspaceView { active: active == Some(ws[i].id), ..ws[i] })
}

/// Cross-references a listing with the active workspace id: each workspace is
/// marked active exactly when its id is `active`.
pub fn mark_active(ws: Vec<Workspace>, active: Option<i32>) -> (r: Vec<Workspace>)
    ensures
        views(r@) == mark_active_spec(views(ws@), active),
{
    let ghost src = ws@;
    let mut out: Vec<Workspace> = Vec::new();
    for w in it: ws
        invariant
            it.seq() == src,
            it.index() <= src.len(),
            out@.len() == it.index(),
            views(out@) == mark_active_spec(views(src.take(it.index() as int)), active),
    {
        let ghost before = out@;
        let ghost k = it.index();
        assert(w == src[k as int]);
        let is_active = match active {
            Some(id) => w.id == id,
            None => false,
        };
        out.push(w.with_active(is_active));
        proof {
            assert(src.take(k + 1) =~= src.take(k as int).push(src[k as int]));
            let want = mark_active_spec(views(src.take(k + 1)), active);
            assert forall|i: int| 0 <= i < k + 1 implies views(out@)[i] == want[i] by {
                if i < k {
                    assert(out@[i] == before[i]);
                    assert(views(before)[i] == mark_active_spec(views(src.take(k as int)), active)[i]);
                }
            }
            assert(views(out@) =~= want);
        }
    }
    proof {
        assert(src.take(src.len() as int) =~= src);
    }
    out
}

/// The snapshot of all workspaces: what `listing_spec` gives, cross-referenced
/// with the active workspace that the report names (none when there is no
/// report or it names none).
pub open spec fn snapshot_spec(listing: Seq<char>, report: Option<Seq<char>>) -> Seq<WorkspaceView> {
    mark_active_spec(listing_spec(listing), active_id_spec(report))
}

/// Builds a snapshot from the workspace listing and, where the query gave
/// one, the active-window report.
pub fn build_snapshot(listing: &str, report: Option<&str>) -> (r: Vec<Workspace>)
    ensures
        views(r@) == snapshot_spec(
            listing@,
            match report {
                Some(t) => Some(t@),
                None => None,
            },
        ),
{
    let ws = parse_workspace_listing(listing);
    let active = match report {
        Some(t) => match ActiveWorkspace::parse(t) {
            Ok(a) => Some(a.id),
            Err(_) => None,
        },
        None => None,
    };
    mark_active(ws, active)
}

proof fn lemma_unique_by_id_unique(ws: Seq<WorkspaceView>)
    ensures
        ids_unique(unique_by_id(ws)),
    decreases ws.len(),
{
    if ws.len() > 0 {
        lemma_unique_by_id_unique(ws.drop_last());
    }
}

/// Every workspace that `unique_by_id` keeps comes from its input.
proof fn lemma_unique_by_id_subset(ws: Seq<WorkspaceView>, j: int)
    requires
        0 <= j < unique_by_id(ws).len(),
    ensures
        ws.contains(unique_by_id(ws)[j]),
    decreases ws.len(),
{
    if ws.len() > 0 {
        let r = unique_by_id(ws.drop_last());
        if j < r.len() {
            lemma_unique_by_id_subset(ws.drop_last(), j);
            let k = choose|k: int| 0 <= k < ws.drop_last().len() && ws.drop_last()[k] == r[j];
            assert(ws[k] == r[j]);
        } else {
            assert(ws[ws.len() - 1] == unique_by_id(ws)[j]);
        }
    }
}

/// Every id of the input of `unique_by_id` is kept.
proof fn lemma_unique_by_id_keeps_ids(ws: Seq<WorkspaceView>, i: int)
    requires
        0 <= i < ws.len(),
    ensures
        exists|j: int| 0 <= j < unique_by_id(ws).len() && unique_by_id(ws)[j].id == ws[i].id,
    decreases ws.len(),
{
    let r = unique_by_id(ws.drop_last());
    if i < ws.len() - 1 {
        lemma_unique_by_id_keeps_ids(ws.drop_last(), i);
        let j = choose|j: int| 0 <= j < r.len() && r[j].id == ws.drop_last()[i].id;
        assert(unique_by_id(ws)[j] == r[j]);
    } else if !exists|j: int| 0 <= j < r.len() && r[j].id == ws.last().id {
        assert(unique_by_id(ws)[r.len() as int] == ws.last());
    } else {
        let j = choose|j: int| 0 <= j < r.len() && r[j].id == ws.last().id;
        assert(unique_by_id(ws)[j] == r[j]);
    }
}

proof fn lemma_parsed_blocks_has_block(bs: Seq<Seq<Seq<char>>>, i: int)
    requires
        0 <= i < bs.len(),
        block_spec(bs[i]) is Ok,
    ensures
        parsed_blocks(bs).contains(block_spec(bs[i])->Ok_0),
    decreases bs.len(),
{
    let r = parsed_blocks(bs.drop_last());
    if i < bs.len() - 1 {
        lemma_parsed_blocks_has_block(bs.drop_last(), i);
        let k = choose|k: int| 0 <= k < r.len() && r[k] == block_spec(bs[i])->Ok_0;
        assert(parsed_blocks(bs)[k] == r[k]);
    } else {
        assert(parsed_blocks(bs)[r.len() as int] == block_spec(bs[i])->Ok_0);
    }
}

proof fn lemma_parsed_blocks_from_block(bs: Seq<Seq<Seq<char>>>, j: int)
    requires
        0 <= j < parsed_blocks(bs).len(),
    ensures
        exists|k: int|
            0 <= k < bs.len() && block_spec(bs[k]) == Ok::<WorkspaceView, WorkspaceParseError>(
                parsed_blocks(bs)[j],
            ),
    decreases bs.len(),
{
    let r = parsed_blocks(bs.drop_last());
    if j < r.len() {
        lemma_parsed_blocks_from_block(bs.drop_last(), j);
        let k = choose|k: int|
            0 <= k < bs.drop_last().len() && block_spec(bs.drop_last()[k]) == Ok::<
                WorkspaceView,
                WorkspaceParseError,
            >(r[j]);
        assert(bs[k] == bs.drop_last()[k]);
    } else {
        assert(block_spec(bs[bs.len() - 1]) == Ok::<WorkspaceView, WorkspaceParseError>(
            parsed_blocks(bs)[j],
        ));
    }
}

/// No two workspaces of a parsed listing share an id.
pub proof fn lemma_listing_ids_unique(s: Seq<char>)
    ensures
        ids_unique(listing_spec(s)),
{
    lemma_unique_by_id_unique(parsed_blocks(blocks_of(lines_of(s))));
}

/// No two workspaces of a snapshot share an id, whatever the active-window
/// report says.
pub proof fn lemma_snapshot_ids_unique(listing: Seq<char>, report: Option<Seq<char>>)
    ensures
        ids_unique(snapshot_spec(listing, report)),
{
    lemma_listing_ids_unique(listing);
}

/// A malformed block does not keep the other blocks of a listing from being
/// read: the id of every well-formed block is in the result, and so is its
/// workspace itself when no other well-formed block has that id.
pub proof fn lemma_blocks_parsed_independently(s: Seq<char>, i: int)
    requires
        0 <= i < blocks_of(lines_of(s)).len(),
        block_spec(blocks_of(lines_of(s))[i]) is Ok,
    ensures
        exists|j: int|
            0 <= j < listing_spec(s).len() && listing_spec(s)[j].id == block_spec(
                blocks_of(lines_of(s))[i],
            )->Ok_0.id,
        (forall|k: int|
            0 <= k < blocks_of(lines_of(s)).len() && k != i && block_spec(
                blocks_of(lines_of(s))[k],
            ) is Ok ==> block_spec(blocks_of(lines_of(s))[k])->Ok_0.id != block_spec(
                blocks_of(lines_of(s))[i],
            )->Ok_0.id) ==> listing_spec(s).contains(block_spec(blocks_of(lines_of(s))[i])->Ok_0),
{
    let bs = blocks_of(lines_of(s));
    let w = block_spec(bs[i])->Ok_0;
    let ps = parsed_blocks(bs);
    lemma_parsed_blocks_has_block(bs, i);
    let p = choose|p: int| 0 <= p < ps.len() && ps[p] == w;
    lemma_unique_by_id_keeps_ids(ps, p);
    if forall|k: int|
        0 <= k < bs.len() && k != i && block_spec(bs[k]) is Ok ==> block_spec(bs[k])->Ok_0.id
            != w.id {
        let j = choose|j: int| 0 <= j < listing_spec(s).len() && listing_spec(s)[j].id == w.id;
        lemma_unique_by_id_subset(ps, j);
        let q = choose|q: int| 0 <= q < ps.len() && ps[q] == listing_spec(s)[j];
        lemma_parsed_blocks_from_block(bs, q);
        let k = choose|k: int|
            0 <= k < bs.len() && block_spec(bs[k]) == Ok::<WorkspaceView, WorkspaceParseError>(
                ps[q],
            );
        assert(k == i);
        assert(listing_spec(s)[j] == w);
    }
}

impl std::str::FromStr for Workspace {
    type Err = WorkspaceParseError;

    fn from_str(s: &str) -> Result<Workspace, WorkspaceParseError> {
        Workspace::parse_block(s)
    }
}

impl std::str::FromStr for ActiveWorkspace {
    type Err = ActiveWorkspaceError;

    fn from_str(s: &str) -> Result<ActiveWorkspace, ActiveWorkspaceError> {
        ActiveWorkspace::parse(s)
    }
}

} // verus!
