use vstd::prelude::*;
use vstd::string::StringExecFns;

verus! {

/// One workspace as the window manager reports it.
#[derive(Debug)]
pub struct SwayWorkspace {
    pub name: String,
    pub output: String,
    pub focused: bool,
}

/// Moving one workspace to one output.
#[derive(Debug)]
pub struct WorkspaceMove {
    pub workspace: String,
    pub output: String,
}

impl View for WorkspaceMove {
    type V = (Seq<char>, Seq<char>);

    open spec fn view(&self) -> (Seq<char>, Seq<char>) {
        (self.workspace@, self.output@)
    }
}

impl WorkspaceMove {
    /// The window-manager command that focuses the workspace and moves it.
    pub fn command(&self) -> (r: String)
        ensures
            r@ == "workspace "@ + self.workspace@ + "; move workspace to output "@ + self.output@,
    {
        let r = String::from_str("workspace ");
        let r = r.concat(self.workspace.as_str());
        let r = r.concat("; move workspace to output ");
        r.concat(self.output.as_str())
    }
}

/// The window-manager command that focuses workspace `name`.
pub fn focus_command(name: &str) -> (r: String)
    ensures
        r@ == "workspace "@ + name@,
{
    String::from_str("workspace ").concat(name)
}

/// What to do to put workspaces back: the moves, in order, then the
/// workspace to focus.
#[derive(Debug)]
pub struct RestorePlan {
    pub moves: Vec<WorkspaceMove>,
    pub focus: Option<String>,
}

/// The workspace-to-output mapping from before mirroring, kept so that it
/// can be restored.
#[derive(Debug)]
pub struct WorkspaceState {
    /// Workspace name and the output it was on.
    pub original_mapping: Vec<(String, String)>,
    /// The workspace that was focused before mirroring started.
    pub original_focused: Option<String>,
    pub source_output: String,
}

pub open spec fn moves_view(v: Seq<WorkspaceMove>) -> Seq<(Seq<char>, Seq<char>)> {
    v.map_values(|m: WorkspaceMove| m@)
}

pub open spec fn pairs_view(v: Seq<(String, String)>) -> Seq<(Seq<char>, Seq<char>)> {
    v.map_values(|p: (String, String)| (p.0@, p.1@))
}

pub open spec fn opt_view(o: Option<String>) -> Option<Seq<char>> {
    match o {
        Some(s) => Some(s@),
        None => None,
    }
}

/// The output that `mapping` records last for workspace `name`: a later
/// record of the same name supersedes an earlier one.
pub open spec fn lookup(mapping: Seq<(Seq<char>, Seq<char>)>, name: Seq<char>) -> Option<Seq<char>>
    decreases mapping.len(),
{
    if mapping.len() == 0 {
        None
    } else if mapping.last().0 == name {
        Some(mapping.last().1)
    } else {
        lookup(mapping.drop_last(), name)
    }
}

/// Each workspace's name with the output it is on.
pub open spec fn mapping_of(ws: Seq<SwayWorkspace>) -> Seq<(Seq<char>, Seq<char>)> {
    ws.map_values(|w: SwayWorkspace| (w.name@, w.output@))
}

/// The name of the first focused workspace.
pub open spec fn focused_of(ws: Seq<SwayWorkspace>) -> Option<Seq<char>>
    decreases ws.len(),
{
    if ws.len() == 0 {
        None
    } else if ws[0].focused {
        Some(ws[0].name@)
    } else {
        focused_of(ws.drop_first())
    }
}

/// Moves that gather every workspace not on `source` onto it.
pub open spec fn gather_moves(ws: Seq<SwayWorkspace>, source: Seq<char>) -> Seq<
    (Seq<char>, Seq<char>),
>
    decreases ws.len(),
{
    if ws.len() == 0 {
        Seq::empty()
    } else if ws.last().output@ == source {
        gather_moves(ws.drop_last(), source)
    } else {
        gather_moves(ws.drop_last(), source).push((ws.last().name@, source))
    }
}

/// Moves that send back each workspace now on `source` that was recorded
/// on another output.
pub open spec fn restore_moves(
    mapping: Seq<(Seq<char>, Seq<char>)>,
    source: Seq<char>,
    ws: Seq<SwayWorkspace>,
) -> Seq<(Seq<char>, Seq<char>)>
    decreases ws.len(),
{
    if ws.len() == 0 {
        Seq::empty()
    } else {
        let prev = restore_moves(mapping, source, ws.drop_last());
        let w = ws.last();
        match lookup(mapping, w.name@) {
            Some(orig) => if orig != source && w.output@ == source {
                prev.push((w.name@, orig))
            } else {
                prev
            },
            None => prev,
        }
    }
}

fn clone_string(s: &String) -> (r: String)
    ensures
        r@ == s@,
{
    s.clone()
}

impl WorkspaceState {
    /// Records where each of `workspaces` is and which one has focus, before
    /// everything is moved onto `source_output`.
    pub fn from_workspaces(workspaces: &Vec<SwayWorkspace>, source_output: &str) -> (r:
        WorkspaceState)
        ensures
            pairs_view(r.original_mapping@) == mapping_of(workspaces@),
            opt_view(r.original_focused) == focused_of(workspaces@),
            r.source_output@ == source_output@,
    {
        let mut mapping: Vec<(String, String)> = Vec::new();
        let mut focused: Option<String> = None;
        let mut i: usize = 0;
        while i < workspaces.len()
            invariant
                i <= workspaces@.len(),
                pairs_view(mapping@) == mapping_of(workspaces@.take(i as int)),
                opt_view(focused) == focused_of(workspaces@.take(i as int)),
            decreases workspaces@.len() - i,
        {
            let w = &workspaces[i];
            proof {
                lemma_focused_of_push(workspaces@.take(i as int), workspaces@[i as int]);
                assert(workspaces@.take(i as int + 1) =~= workspaces@.take(i as int).push(*w));
            }
            let pair = (clone_string(&w.name), clone_string(&w.output));
            let ghost before = mapping@;
            mapping.push(pair);
            if focused.is_none() && w.focused {
                focused = Some(clone_string(&w.name));
            }
            proof {
                assert(pairs_view(before.push(pair)) =~= pairs_view(before).push(
                    (w.name@, w.output@),
                ));
                assert(mapping_of(workspaces@.take(i as int).push(*w)) =~= mapping_of(
                    workspaces@.take(i as int),
                ).push((w.name@, w.output@)));
            }
            i = i + 1;
        }
        assert(workspaces@.take(i as int) =~= workspaces@);
        WorkspaceState {
            original_mapping: mapping,
            original_focused: focused,
            source_output: source_output.to_owned(),
        }
    }

    fn lookup_output(&self, name: &String) -> (r: Option<&String>)
        ensures
            match r {
                Some(o) => lookup(pairs_view(self.original_mapping@), name@) == Some(o@),
                None => lookup(pairs_view(self.original_mapping@), name@) is None,
            },
    {
        let mut i: usize = self.original_mapping.len();
        assert(pairs_view(self.original_mapping@).take(i as int) =~= pairs_view(
            self.original_mapping@,
        ));
        while i > 0
            invariant
                i <= self.original_mapping@.len(),
                lookup(pairs_view(self.original_mapping@), name@) == lookup(
                    pairs_view(self.original_mapping@).take(i as int),
                    name@,
                ),
            decreases i,
        {
            let ghost pre = pairs_view(self.original_mapping@).take(i as int);
            assert(pre.drop_last() =~= pairs_view(self.original_mapping@).take(i as int - 1));
            assert(pre.last() == pairs_view(self.original_mapping@)[i as int - 1]);
            if self.original_mapping[i - 1].0 == *name {
                return Some(&self.original_mapping[i - 1].1);
            }
            i = i - 1;
        }
        None
    }

    /// The moves that put back, onto the output it was recorded on, each of
    /// the `current` workspaces that sits on the source output but was
    /// elsewhere before; then the focus that was recorded.
    pub fn restore(&self, current: &Vec<SwayWorkspace>) -> (r: RestorePlan)
        ensures
            moves_view(r.moves@) == restore_moves(
                pairs_view(self.original_mapping@),
                self.source_output@,
                current@,
            ),
            opt_view(r.focus) == opt_view(self.original_focused),
    {
        let mut moves: Vec<WorkspaceMove> = Vec::new();
        let mut i: usize = 0;
        while i < current.len()
            invariant
                i <= current@.len(),
                moves_view(moves@) == restore_moves(
                    pairs_view(self.original_mapping@),
                    self.source_output@,
                    current@.take(i as int),
                ),
            decreases current@.len() - i,
        {
            let w = &current[i];
            proof {
                assert(current@.take(i as int + 1).drop_last() =~= current@.take(i as int));
                assert(current@.take(i as int + 1).last() == current@[i as int]);
            }
            match self.lookup_output(&w.name) {
                Some(orig) => {
                    if !(*orig == self.source_output) && w.output == self.source_output {
                        moves.push(
                            WorkspaceMove { workspace: clone_string(&w.name), output: clone_string(orig) },
                        );
                    }
                },
                None => {},
            }
            assert(moves_view(moves@) =~= restore_moves(
                pairs_view(self.original_mapping@),
                self.source_output@,
                current@.take(i as int + 1),
            ));
            i = i + 1;
        }
        assert(current@.take(i as int) =~= current@);
        let focus = match &self.original_focused {
            Some(f) => Some(clone_string(f)),
            None => None,
        };
        RestorePlan { moves, focus }
    }

    /// The restoration that a saved state calls for, given the workspaces
    /// that exist now; nothing when no state was saved. The caller removes
    /// the saved state once the plan has been carried out.
    pub fn restore_from_file(saved: Option<&WorkspaceState>, current: &Vec<SwayWorkspace>) -> (r:
        Option<RestorePlan>)
        ensures
            saved is None ==> r is None,
            saved matches Some(s) ==> r matches Some(p) && moves_view(p.moves@) == restore_moves(
                pairs_view(s.original_mapping@),
                s.source_output@,
                current@,
            ) && opt_view(p.focus) == opt_view(s.original_focused),
    {
        match saved {
            Some(s) => Some(s.restore(current)),
            None => None,
        }
    }
}

/// The moves that gather every one of `workspaces` that is not on
/// `source_output` onto it, in order.
pub fn moves_to_source(workspaces: &Vec<SwayWorkspace>, source_output: &str) -> (r: Vec<
    WorkspaceMove,
>)
    ensures
        moves_view(r@) == gather_moves(workspaces@, source_output@),
{
    let source = source_output.to_owned();
    let mut moves: Vec<WorkspaceMove> = Vec::new();
    let mut i: usize = 0;
    while i < workspaces.len()
        invariant
            i <= workspaces@.len(),
            source@ == source_output@,
            moves_view(moves@) == gather_moves(workspaces@.take(i as int), source_output@),
        decreases workspaces@.len() - i,
    {
        let w = &workspaces[i];
        proof {
            assert(workspaces@.take(i as int + 1).drop_last() =~= workspaces@.take(i as int));
            assert(workspaces@.take(i as int + 1).last() == workspaces@[i as int]);
        }
        if !(w.output == source) {
            moves.push(WorkspaceMove { workspace: clone_string(&w.name), output: clone_string(&source) });
        }
        assert(moves_view(moves@) =~= gather_moves(workspaces@.take(i as int + 1), source_output@));
        i = i + 1;
    }
    assert(workspaces@.take(i as int) =~= workspaces@);
    moves
}

proof fn lemma_focused_of_push(ws: Seq<SwayWorkspace>, w: SwayWorkspace)
    ensures
        focused_of(ws.push(w)) == match focused_of(ws) {
            Some(n) => Some(n),
            None => if w.focused {
                Some(w.name@)
            } else {
                None
            },
        },
    decreases ws.len(),
{
    if ws.len() > 0 {
        lemma_focused_of_push(ws.drop_first(), w);
        assert(ws.push(w).drop_first() =~= ws.drop_first().push(w));
        assert(ws.push(w)[0] == ws[0]);
    } else {
        assert(ws.push(w).drop_first() =~= Seq::<SwayWorkspace>::empty());
        assert(ws.push(w)[0] == w);
        assert(focused_of(ws.push(w).drop_first()) is None);
    }
}

} // verus!
