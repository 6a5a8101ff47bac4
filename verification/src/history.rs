use vstd::prelude::*;

use crate::position::Position;
use crate::row::{Row, RowV, CellV};
use crate::syntax::{TokenType, TokenStateV};

verus! {

/// The UI snapshot (viewport, cursor, selection anchor) restored when an undo
/// or redo lands on a version.
#[derive(Debug, Clone, Copy)]
pub struct State {
    pub viewbox: Position,
    pub cursor: Position,
    pub anchor: Option<Position>,
}

impl State {
    /// The state of a brand-new document: everything at the origin, nothing
    /// selected.
    pub open spec fn initial() -> State {
        State {
            viewbox: Position { x: 0, y: 0 },
            cursor: Position { x: 0, y: 0 },
            anchor: None,
        }
    }
}

impl Default for State {
    fn default() -> (r: Self)
        ensures
            r == State::initial(),
    {
        State { viewbox: Position { x: 0, y: 0 }, cursor: Position { x: 0, y: 0 }, anchor: None }
    }
}

/// One transition of the log: a sparse backward map (how to rebuild the
/// previous version), a sparse forward map (how to rebuild the next version),
/// and the buffer length at this version.
struct Diff {
    old: Vec<Option<Row>>,
    new: Vec<Option<Row>>,
    len: usize,
}

/// The row values a buffer of rows stands for.
pub open spec fn rows_view(rows: Seq<Row>) -> Seq<RowV> {
    rows.map_values(|r: Row| r@)
}

/// The row value an entry of a sparse row map stands for.
pub open spec fn opt_view(o: Option<Row>) -> Option<RowV> {
    match o {
        Option::Some(r) => Some(r@),
        Option::None => None,
    }
}

/// The row values a sparse row map stands for.
pub open spec fn map_view(m: Seq<Option<Row>>) -> Seq<Option<RowV>> {
    m.map_values(|o: Option<Row>| opt_view(o))
}

/// The value of a fresh (default) row.
pub open spec fn default_row() -> RowV {
    RowV {
        cells: Seq::<CellV>::empty(),
        syntax: Seq::<TokenType>::empty(),
        final_state: TokenStateV::Normal,
    }
}

/// Resizing `base` to `n` rows (filling with fresh rows) and then writing
/// every entry the sparse map `m` holds: the way a diff is applied to the
/// live buffer.
pub open spec fn apply_map(base: Seq<RowV>, m: Seq<Option<RowV>>, n: nat) -> Seq<RowV> {
    Seq::new(
        n,
        |i: int|
            if 0 <= i < m.len() && m[i] is Some {
                m[i]->0
            } else if i < base.len() {
                base[i]
            } else {
                default_row()
            },
    )
}

/// A UI snapshot fits a buffer when everything it points at exists: the
/// buffer is non-empty and the cursor and anchor rows are in range.
pub open spec fn state_fits(st: State, buf: Seq<RowV>) -> bool {
    &&& buf.len() >= 1
    &&& st.cursor.y < buf.len()
    &&& (match st.anchor {
        Option::Some(a) => a.y < buf.len(),
        Option::None => true,
    })
}

/// An append-only log of committed buffer versions with a version pointer,
/// supporting undo and redo without full-document snapshots: each version
/// stores only the rows that changed, in a backward and a forward sparse map.
pub struct History {
    diffs: Vec<Diff>,
    states: Vec<State>,
    /// The live buffer: the rows of the version currently pointed at.
    pub current: Vec<Row>,
    /// The UI snapshot of the version an undo or redo last landed on.
    pub current_state: State,
    version: usize,
    log: Ghost<Seq<Seq<RowV>>>,
}

/// The abstract value of a history: the committed buffers in commit order,
/// and the 1-based version the live buffer stands at.
pub struct HistoryModel {
    pub versions: Seq<Seq<RowV>>,
    pub version: int,
}

/// What `undo` does to the abstract history: step back one version, if one
/// exists behind the current one.
pub open spec fn spec_undo(m: HistoryModel) -> HistoryModel {
    if m.version > 1 {
        HistoryModel { versions: m.versions, version: m.version - 1 }
    } else {
        m
    }
}

/// What `redo` does to the abstract history: step forward one version, if
/// the current one is not the newest.
pub open spec fn spec_redo(m: HistoryModel) -> HistoryModel {
    if m.version < m.versions.len() {
        HistoryModel { versions: m.versions, version: m.version + 1 }
    } else {
        m
    }
}

/// The commit the live buffer holds (versions are 1-based).
pub open spec fn live_buffer(m: HistoryModel) -> Seq<RowV>
    recommends
        1 <= m.version <= m.versions.len(),
{
    m.versions[m.version - 1]
}

/// `k` undos in a row.
pub open spec fn undo_times(m: HistoryModel, k: nat) -> HistoryModel
    decreases k,
{
    if k == 0 {
        m
    } else {
        spec_undo(undo_times(m, (k - 1) as nat))
    }
}

/// `k` redos in a row.
pub open spec fn redo_times(m: HistoryModel, k: nat) -> HistoryModel
    decreases k,
{
    if k == 0 {
        m
    } else {
        spec_redo(redo_times(m, (k - 1) as nat))
    }
}

impl History {
    /// The committed buffers, in commit order.
    pub closed spec fn spec_versions(self) -> Seq<Seq<RowV>> {
        self.log@
    }

    /// How many commits are applied: the live buffer holds commit
    /// `spec_version() - 1` of `spec_versions()`.
    pub closed spec fn spec_version(self) -> int {
        self.version as int
    }

    /// The stored UI snapshots, one per committed version.
    pub closed spec fn spec_states(self) -> Seq<State> {
        self.states@
    }

    /// The row values of the live buffer.
    pub closed spec fn spec_current(self) -> Seq<RowV> {
        rows_view(self.current@)
    }

    /// The UI snapshot last landed on.
    pub closed spec fn spec_current_state(self) -> State {
        self.current_state
    }

    /// The abstract history this value stands for.
    pub open spec fn model(self) -> HistoryModel {
        HistoryModel { versions: self.spec_versions(), version: self.spec_version() }
    }

    /// A copy of the live buffer's rows.
    pub fn clone_current(&self) -> (r: Vec<Row>)
        ensures
            rows_view(r@) == self.spec_current(),
    {
        clone_rows(&self.current)
    }

    /// The UI snapshot last landed on by undo or redo.
    pub fn state_snapshot(&self) -> (r: State)
        ensures
            r == self.spec_current_state(),
    {
        self.current_state
    }

    /// The history's internal invariant: the version pointer is in range, the
    /// live buffer equals the pointed-at commit, and each stored diff turns
    /// its version into its neighbour exactly.
    pub closed spec fn wf(self) -> bool {
        &&& self.diffs@.len() == self.log@.len()
        &&& self.states@.len() == self.log@.len()
        &&& self.version <= self.log@.len()
        &&& (self.log@.len() > 0 ==> self.version >= 1)
        &&& (self.version >= 1 ==> rows_view(self.current@) == self.log@[self.version - 1])
        &&& (forall|i: int|
            0 <= i < self.log@.len() ==> state_fits(#[trigger] self.states@[i], self.log@[i]))
        &&& (forall|i: int|
            0 <= i < self.log@.len() ==> (#[trigger] self.diffs@[i]).len == self.log@[i].len())
        &&& (forall|i: int|
            1 <= i < self.log@.len() ==> (#[trigger] self.diffs@[i]).old@.len() == self.log@[i
                - 1].len())
        &&& (forall|i: int|
            1 <= i < self.log@.len() ==> apply_map(
                self.log@[i],
                map_view((#[trigger] self.diffs@[i]).old@),
                self.log@[i - 1].len(),
            ) == self.log@[i - 1])
        &&& (forall|i: int|
            0 <= i < self.log@.len() - 1 ==> (#[trigger] self.diffs@[i]).new@.len() == self.log@[i
                + 1].len())
        &&& (forall|i: int|
            0 <= i < self.log@.len() - 1 ==> apply_map(
                self.log@[i],
                map_view((#[trigger] self.diffs@[i]).new@),
                self.log@[i + 1].len(),
            ) == self.log@[i + 1])
    }

    /// An empty history: no versions, nothing applied.
    pub fn new() -> (r: History)
        ensures
            r.wf(),
            r.spec_versions() == Seq::<Seq<RowV>>::empty(),
            r.spec_version() == 0,
            r.spec_states() == Seq::<State>::empty(),
            r.spec_current() == Seq::<RowV>::empty(),
            r.spec_current_state() == State::initial(),
    {
        proof {
            assert(rows_view(Seq::<Row>::empty()) =~= Seq::<RowV>::empty());
        }
        History {
            diffs: Vec::new(),
            states: Vec::new(),
            current: Vec::new(),
            current_state: State::default(),
            version: 0,
            log: Ghost(Seq::empty()),
        }
    }

    /// Push a new committed buffer. Any versions after the current one are
    /// discarded first, so the new commit becomes the newest version; the
    /// live buffer ends up equal to `item`, row for row.
    pub fn push_state(
        &mut self,
        item: &Vec<Row>,
        viewbox: Position,
        cursor: Position,
        anchor: Option<Position>,
    )
        requires
            old(self).wf(),
            state_fits(State { viewbox, cursor, anchor }, rows_view(item@)),
        ensures
            final(self).wf(),
            final(self).spec_versions() == old(self).spec_versions().take(
                old(self).spec_version(),
            ).push(rows_view(item@)),
            final(self).spec_states() == old(self).spec_states().take(
                old(self).spec_version(),
            ).push(State { viewbox, cursor, anchor }),
            final(self).spec_version() == old(self).spec_version() + 1,
            final(self).spec_current() == rows_view(item@),
            final(self).spec_current_state() == old(self).spec_current_state(),
    {
        let v = self.version;
        self.diffs.truncate(v);
        self.states.truncate(v);
        proof {
            self.log@ = self.log@.take(v as int);
            assert(old(self).diffs@.subrange(0, v as int).len() == v as int);
        }
        self.states.push(State { viewbox, cursor, anchor });

        if v == 0 {
            self.diffs.push(Diff { old: Vec::new(), new: Vec::new(), len: item.len() });
            self.current = clone_rows(item);
            proof {
                self.log@ = self.log@.push(rows_view(item@));
            }
            self.version = 1;
            proof {
                assert(final(self).spec_versions() =~= old(self).spec_versions().take(
                    old(self).spec_version(),
                ).push(rows_view(item@)));
                assert(final(self).spec_states() =~= old(self).spec_states().take(
                    old(self).spec_version(),
                ).push(State { viewbox, cursor, anchor }));
            }
        } else {
            let ghost prev = rows_view(old(self).current@);
            let ghost lg = self.log@;
            let new_len = item.len();
            let old_len = self.current.len();
            let (fwd, bwd) = diff_rows(&mut self.current, item);
            proof {
                assert(lg[v - 1] == prev);
                // the rebuilt forward map leads from version v-1 to the commit
                assert forall|k: int| 0 <= k < new_len implies apply_map(
                    lg[v - 1],
                    map_view(fwd@),
                    new_len as nat,
                )[k] == rows_view(item@)[k] by {
                    assert(map_view(fwd@)[k] == opt_view(fwd@[k]));
                    assert(rows_view(item@)[k] == item@[k]@);
                    if k < old_len && prev[k] == item@[k]@ {
                        assert(lg[v - 1][k] == prev[k]);
                    }
                }
                assert(apply_map(lg[v - 1], map_view(fwd@), new_len as nat) =~= rows_view(item@));
                // the rebuilt backward map leads from the commit back to v-1
                assert forall|k: int| 0 <= k < old_len implies apply_map(
                    rows_view(item@),
                    map_view(bwd@),
                    old_len as nat,
                )[k] == prev[k] by {
                    assert(map_view(bwd@)[k] == opt_view(bwd@[k]));
                    if k < new_len && prev[k] == item@[k]@ {
                        assert(rows_view(item@)[k] == item@[k]@);
                    }
                }
                assert(apply_map(rows_view(item@), map_view(bwd@), old_len as nat) =~= prev);
            }
            if let Some(mut last) = self.diffs.pop() {
                last.new = fwd;
                self.diffs.push(last);
            }
            self.diffs.push(Diff { old: bwd, new: Vec::new(), len: new_len });
            proof {
                self.log@ = self.log@.push(rows_view(item@));
            }
            proof {
                assert(self.diffs@.len() == v + 1);
            }
            self.version = self.diffs.len();
            proof {
                let dv = self.diffs@;
                let lgv = self.log@;
                assert(lgv.len() == v + 1);
                assert(dv.len() == v + 1);
                assert forall|i: int| 0 <= i < v - 1 implies dv[i] == old(self).diffs@[i] by {
                    assert(old(self).diffs@.subrange(0, v as int)[i] == old(self).diffs@[i]);
                }
                assert(dv[v - 1].old@ == old(self).diffs@[v - 1].old@);
                assert(dv[v - 1].len == old(self).diffs@[v - 1].len);
                assert(dv[v - 1].new@ == fwd@);
                assert(dv[v as int].old@ == bwd@);
                assert(dv[v as int].len == new_len);
                assert forall|i: int| 0 <= i < lgv.len() implies lgv[i] == if i < v {
                    old(self).log@[i]
                } else {
                    rows_view(item@)
                } by {}
                assert(final(self).spec_versions() =~= old(self).spec_versions().take(
                    old(self).spec_version(),
                ).push(rows_view(item@)));
                assert(final(self).spec_states() =~= old(self).spec_states().take(
                    old(self).spec_version(),
                ).push(State { viewbox, cursor, anchor }));
            }
        }
    }

    /// Overwrite the UI snapshot of the most recently committed version,
    /// without creating a new diff. Does nothing when nothing was committed.
    pub fn update_state(&mut self, viewbox: Position, cursor: Position, anchor: Option<Position>)
        requires
            old(self).wf(),
            old(self).spec_version() >= 1 ==> state_fits(
                State { viewbox, cursor, anchor },
                old(self).spec_current(),
            ),
        ensures
            final(self).wf(),
            final(self).model() == old(self).model(),
            final(self).spec_current() == old(self).spec_current(),
            final(self).spec_current_state() == old(self).spec_current_state(),
            old(self).spec_version() >= 1 ==> final(self).spec_states() == old(
                self,
            ).spec_states().update(
                old(self).spec_version() - 1,
                State { viewbox, cursor, anchor },
            ),
            old(self).spec_version() == 0 ==> final(self).spec_states() == old(self).spec_states(),
    {
        let v = self.version;
        if v > 0 {
            self.states[v - 1] = State { viewbox, cursor, anchor };
        }
    }

    /// Step back one version: rebuild the previous version's buffer from the
    /// backward map, and restore that version's UI snapshot. Returns whether
    /// anything was undone (there is nothing before version 1).
    pub fn undo(&mut self) -> (r: bool)
        requires
            old(self).wf(),
        ensures
            final(self).wf(),
            final(self).model() == spec_undo(old(self).model()),
            r == (old(self).spec_version() > 1),
            final(self).spec_states() == old(self).spec_states(),
            !r ==> *final(self) == *old(self),
            r ==> final(self).spec_current() == live_buffer(final(self).model()),
            r ==> final(self).spec_current_state() == final(self).spec_states()[final(self).spec_version() - 1],
            r ==> state_fits(final(self).spec_current_state(), final(self).spec_current()),
    {
        if self.version > 1 {
            let v = self.version - 1;
            let target_len = self.diffs[v - 1].len;
            proof {
                assert(self.log@[v - 1].len() == target_len);
            }
            self.apply_diff_back(v, target_len);
            self.version = v;
            self.current_state = self.states[v - 1];
            true
        } else {
            false
        }
    }

    /// Step forward one version: rebuild the next version's buffer from the
    /// forward map, and restore that version's UI snapshot. Returns whether
    /// anything was redone (the newest version has nothing after it).
    pub fn redo(&mut self) -> (r: bool)
        requires
            old(self).wf(),
        ensures
            final(self).wf(),
            final(self).model() == spec_redo(old(self).model()),
            r == (old(self).spec_version() < old(self).spec_versions().len()),
            final(self).spec_states() == old(self).spec_states(),
            !r ==> *final(self) == *old(self),
            r ==> final(self).spec_current() == live_buffer(final(self).model()),
            r ==> final(self).spec_current_state() == final(self).spec_states()[final(self).spec_version() - 1],
            r ==> state_fits(final(self).spec_current_state(), final(self).spec_current()),
    {
        if self.version < self.diffs.len() {
            let v = self.version;
            let target_len = self.diffs[v].len;
            proof {
                assert(self.log@[v as int].len() == target_len);
            }
            self.apply_diff_forward(v, target_len);
            self.current_state = self.states[v];
            self.version = v + 1;
            true
        } else {
            false
        }
    }

    /// Resize the live buffer to `target_len` and overlay the backward map of
    /// diff `v`, landing the buffer on version `v` (1-based).
    fn apply_diff_back(&mut self, v: usize, target_len: usize)
        requires
            old(self).wf(),
            1 <= v < old(self).spec_version() <= old(self).spec_versions().len(),
            target_len == old(self).spec_versions()[v - 1].len(),
            old(self).spec_version() == v + 1,
        ensures
            final(self).diffs == old(self).diffs,
            final(self).states == old(self).states,
            final(self).spec_versions() == old(self).spec_versions(),
            final(self).version == old(self).version,
            final(self).current_state == old(self).current_state,
            rows_view(final(self).current@) == old(self).spec_versions()[v - 1],
    {
        let ghost lg = self.log@;
        let ghost m = map_view(self.diffs@[v as int].old@);
        proof {
            assert(m.len() == lg[v - 1].len());
            assert(apply_map(lg[v as int], m, lg[v - 1].len()) == lg[v - 1]);
            assert(rows_view(self.current@) == lg[v as int]);
        }
        let fill = Row::default();
        self.current.resize(target_len, fill);
        proof {
            assert forall|k: int| 0 <= k < target_len implies #[trigger] self.current@[k]@ == (
            if k < lg[v as int].len() {
                lg[v as int][k]
            } else {
                default_row()
            }) by {
                if k < old(self).current@.len() {
                    if target_len <= old(self).current@.len() {
                        assert(self.current@[k] == old(self).current@[k]);
                    } else {
                        assert(self.current@.subrange(0, old(self).current@.len() as int)[k]
                            == self.current@[k]);
                    }
                    assert(rows_view(old(self).current@)[k] == old(self).current@[k]@);
                } else {
                    assert(cloned::<Row>(fill, self.current@[k]));
                }
            }
        }
        let n = self.diffs[v].old.len();
        proof {
            assert(n == target_len);
        }
        let mut i: usize = 0;
        while i < n
            invariant
                old(self).wf(),
                self.diffs == old(self).diffs,
                self.states == old(self).states,
                self.log == old(self).log,
                self.version == old(self).version,
                self.current_state == old(self).current_state,
                lg == self.log@,
                m == map_view(self.diffs@[v as int].old@),
                1 <= v < lg.len(),
                n == target_len == m.len() == lg[v - 1].len(),
                i <= n,
                self.current@.len() == target_len,
                forall|k: int|
                    0 <= k < i ==> #[trigger] self.current@[k]@ == apply_map(
                        lg[v as int],
                        m,
                        target_len as nat,
                    )[k],
                forall|k: int|
                    i <= k < target_len ==> #[trigger] self.current@[k]@ == (if k < lg[
                        v as int
                    ].len() {
                        lg[v as int][k]
                    } else {
                        default_row()
                    }),
            decreases n - i,
        {
            proof {
                assert(m[i as int] == opt_view(self.diffs@[v as int].old@[i as int]));
            }
            match &self.diffs[v].old[i] {
                Some(row) => {
                    let r = row.clone();
                    self.current[i] = r;
                },
                None => {},
            }
            i += 1;
        }
        proof {
            assert forall|k: int| 0 <= k < target_len implies rows_view(self.current@)[k]
                == apply_map(lg[v as int], m, target_len as nat)[k] by {
                assert(rows_view(self.current@)[k] == self.current@[k]@);
            }
            assert(rows_view(self.current@) =~= apply_map(lg[v as int], m, target_len as nat));
        }
    }

    /// Resize the live buffer to `target_len` and overlay the forward map of
    /// diff `v - 1`, landing the buffer on version `v + 1` (1-based).
    fn apply_diff_forward(&mut self, v: usize, target_len: usize)
        requires
            old(self).wf(),
            1 <= v < old(self).spec_versions().len(),
            old(self).spec_version() == v,
            target_len == old(self).spec_versions()[v as int].len(),
        ensures
            final(self).diffs == old(self).diffs,
            final(self).states == old(self).states,
            final(self).spec_versions() == old(self).spec_versions(),
            final(self).version == old(self).version,
            final(self).current_state == old(self).current_state,
            rows_view(final(self).current@) == old(self).spec_versions()[v as int],
    {
        let ghost lg = self.log@;
        let ghost m = map_view(self.diffs@[v - 1].new@);
        proof {
            assert(m.len() == lg[v as int].len());
            assert(apply_map(lg[v - 1], m, lg[v as int].len()) == lg[v as int]);
            assert(rows_view(self.current@) == lg[v - 1]);
        }
        let fill = Row::default();
        self.current.resize(target_len, fill);
        proof {
            assert forall|k: int| 0 <= k < target_len implies #[trigger] self.current@[k]@ == (
            if k < lg[v - 1].len() {
                lg[v - 1][k]
            } else {
                default_row()
            }) by {
                if k < old(self).current@.len() {
                    if target_len <= old(self).current@.len() {
                        assert(self.current@[k] == old(self).current@[k]);
                    } else {
                        assert(self.current@.subrange(0, old(self).current@.len() as int)[k]
                            == self.current@[k]);
                    }
                    assert(rows_view(old(self).current@)[k] == old(self).current@[k]@);
                } else {
                    assert(cloned::<Row>(fill, self.current@[k]));
                }
            }
        }
        let n = self.diffs[v - 1].new.len();
        proof {
            assert(n == target_len);
        }
        let mut i: usize = 0;
        while i < n
            invariant
                old(self).wf(),
                self.diffs == old(self).diffs,
                self.states == old(self).states,
                self.log == old(self).log,
                self.version == old(self).version,
                self.current_state == old(self).current_state,
                lg == self.log@,
                m == map_view(self.diffs@[v - 1].new@),
                1 <= v < lg.len(),
                n == target_len == m.len() == lg[v as int].len(),
                i <= n,
                self.current@.len() == target_len,
                forall|k: int|
                    0 <= k < i ==> #[trigger] self.current@[k]@ == apply_map(
                        lg[v - 1],
                        m,
                        target_len as nat,
                    )[k],
                forall|k: int|
                    i <= k < target_len ==> #[trigger] self.current@[k]@ == (if k < lg[v - 1].len() {
                        lg[v - 1][k]
                    } else {
                        default_row()
                    }),
            decreases n - i,
        {
            proof {
                assert(m[i as int] == opt_view(self.diffs@[v - 1].new@[i as int]));
            }
            match &self.diffs[v - 1].new[i] {
                Some(row) => {
                    let r = row.clone();
                    self.current[i] = r;
                },
                None => {},
            }
            i += 1;
        }
        proof {
            assert forall|k: int| 0 <= k < target_len implies rows_view(self.current@)[k]
                == apply_map(lg[v - 1], m, target_len as nat)[k] by {
                assert(rows_view(self.current@)[k] == self.current@[k]@);
            }
            assert(rows_view(self.current@) =~= apply_map(lg[v - 1], m, target_len as nat));
        }
    }
}

impl Default for History {
    fn default() -> (r: Self)
        ensures
            r.wf(),
            r.spec_versions() == Seq::<Seq<RowV>>::empty(),
            r.spec_version() == 0,
            r.spec_states() == Seq::<State>::empty(),
            r.spec_current() == Seq::<RowV>::empty(),
            r.spec_current_state() == State::initial(),
    {
        History::new()
    }
}

/// A copy of a row vector whose rows stand for the same values.
fn clone_rows(rows: &Vec<Row>) -> (r: Vec<Row>)
    ensures
        rows_view(r@) == rows_view(rows@),
{
    let mut out: Vec<Row> = Vec::new();
    let mut i: usize = 0;
    while i < rows.len()
        invariant
            i <= rows.len(),
            out@.len() == i,
            forall|k: int| 0 <= k < i ==> #[trigger] out@[k]@ == rows@[k]@,
        decreases rows.len() - i,
    {
        out.push(rows[i].clone());
        i += 1;
    }
    proof {
        assert forall|k: int| 0 <= k < rows@.len() implies rows_view(out@)[k] == rows_view(rows@)[k]
        by {
            assert(rows_view(out@)[k] == out@[k]@);
            assert(rows_view(rows@)[k] == rows@[k]@);
        }
        assert(rows_view(out@) =~= rows_view(rows@));
    }
    out
}

/// Row-by-row compare of the live buffer against a new buffer: update the
/// live buffer in place to equal the new one, and return the sparse forward
/// map (`None` where a row is unchanged, else the new row) and the sparse
/// backward map (`None` where unchanged, else the old row). Indices past the
/// shorter buffer are recorded as pure insertions or removals.
fn diff_rows(cur: &mut Vec<Row>, item: &Vec<Row>) -> (r: (Vec<Option<Row>>, Vec<Option<Row>>))
    ensures
        rows_view(final(cur)@) == rows_view(item@),
        r.0@.len() == item@.len(),
        r.1@.len() == old(cur)@.len(),
        forall|k: int|
            0 <= k < item@.len() ==> #[trigger] map_view(r.0@)[k] == (if k < old(cur)@.len() && old(
                cur,
            )@[k]@ == item@[k]@ {
                None::<RowV>
            } else {
                Some(item@[k]@)
            }),
        forall|k: int|
            0 <= k < old(cur)@.len() ==> #[trigger] map_view(r.1@)[k] == (if k < item@.len() && old(
                cur,
            )@[k]@ == item@[k]@ {
                None::<RowV>
            } else {
                Some(old(cur)@[k]@)
            }),
{
    let old_len = cur.len();
    let new_len = item.len();
    let min_len = if old_len < new_len {
        old_len
    } else {
        new_len
    };
    let mut fwd: Vec<Option<Row>> = Vec::new();
    let mut bwd: Vec<Option<Row>> = Vec::new();
    let mut i: usize = 0;
    while i < min_len
        invariant
            i <= min_len,
            min_len <= old_len,
            min_len <= new_len,
            old_len == old(cur)@.len(),
            new_len == item@.len(),
            cur@.len() == old_len,
            fwd@.len() == i,
            bwd@.len() == i,
            forall|k: int|
                0 <= k < i ==> #[trigger] opt_view(fwd@[k]) == (if old(cur)@[k]@ == item@[k]@ {
                    None::<RowV>
                } else {
                    Some(item@[k]@)
                }),
            forall|k: int|
                0 <= k < i ==> #[trigger] opt_view(bwd@[k]) == (if old(cur)@[k]@ == item@[k]@ {
                    None::<RowV>
                } else {
                    Some(old(cur)@[k]@)
                }),
            forall|k: int| 0 <= k < i ==> #[trigger] cur@[k]@ == item@[k]@,
            forall|k: int| i <= k < old_len ==> #[trigger] cur@[k]@ == old(cur)@[k]@,
        decreases min_len - i,
    {
        if !cur[i].content_eq(&item[i]) {
            fwd.push(Some(item[i].clone()));
            bwd.push(Some(cur[i].clone()));
            let r = item[i].clone();
            cur[i] = r;
        } else {
            fwd.push(None);
            bwd.push(None);
        }
        i += 1;
    }
    // rows past the new length are recorded as removals
    let mut j: usize = min_len;
    while j < old_len
        invariant
            min_len <= j <= old_len,
            old_len == old(cur)@.len(),
            new_len == item@.len(),
            min_len == if old_len < new_len {
                old_len as int
            } else {
                new_len as int
            },
            cur@.len() == old_len,
            bwd@.len() == j,
            forall|k: int|
                0 <= k < min_len ==> #[trigger] opt_view(bwd@[k]) == (if old(cur)@[k]@ == item@[k]@ {
                    None::<RowV>
                } else {
                    Some(old(cur)@[k]@)
                }),
            forall|k: int| min_len <= k < j ==> #[trigger] opt_view(bwd@[k]) == Some(old(cur)@[k]@),
            forall|k: int| 0 <= k < min_len ==> #[trigger] cur@[k]@ == item@[k]@,
            forall|k: int| min_len <= k < old_len ==> #[trigger] cur@[k]@ == old(cur)@[k]@,
        decreases old_len - j,
    {
        bwd.push(Some(cur[j].clone()));
        j += 1;
    }
    // resize to the new length, then fill appended rows from the new buffer
    let ghost mid = cur@;
    cur.resize(new_len, Row::default());
    proof {
        assert forall|k: int| 0 <= k < min_len implies #[trigger] cur@[k]@ == item@[k]@ by {
            if new_len <= old_len {
                assert(cur@[k] == mid.subrange(0, new_len as int)[k]);
            } else {
                assert(cur@.subrange(0, old_len as int)[k] == cur@[k]);
                assert(mid[k] == cur@[k]);
            }
        }
    }
    let mut j: usize = min_len;
    while j < new_len
        invariant
            min_len <= j <= new_len,
            new_len == item@.len(),
            old_len == old(cur)@.len(),
            min_len == if old_len < new_len {
                old_len as int
            } else {
                new_len as int
            },
            cur@.len() == new_len,
            fwd@.len() == j,
            forall|k: int|
                0 <= k < min_len ==> #[trigger] opt_view(fwd@[k]) == (if old(cur)@[k]@ == item@[k]@ {
                    None::<RowV>
                } else {
                    Some(item@[k]@)
                }),
            forall|k: int| min_len <= k < j ==> #[trigger] opt_view(fwd@[k]) == Some(item@[k]@),
            forall|k: int| 0 <= k < min_len ==> #[trigger] cur@[k]@ == item@[k]@,
            forall|k: int| min_len <= k < j ==> #[trigger] cur@[k]@ == item@[k]@,
        decreases new_len - j,
    {
        fwd.push(Some(item[j].clone()));
        let r = item[j].clone();
        cur[j] = r;
        j += 1;
    }
    proof {
        assert forall|k: int| 0 <= k < new_len implies rows_view(cur@)[k] == rows_view(item@)[k] by {
            assert(rows_view(cur@)[k] == cur@[k]@);
            assert(rows_view(item@)[k] == item@[k]@);
        }
        assert(rows_view(cur@) =~= rows_view(item@));
        assert forall|k: int| 0 <= k < item@.len() implies #[trigger] map_view(fwd@)[k] == (if k
            < old(cur)@.len() && old(cur)@[k]@ == item@[k]@ {
            None::<RowV>
        } else {
            Some(item@[k]@)
        }) by {
            assert(map_view(fwd@)[k] == opt_view(fwd@[k]));
        }
        assert forall|k: int| 0 <= k < old(cur)@.len() implies #[trigger] map_view(bwd@)[k] == (
        if k < item@.len() && old(cur)@[k]@ == item@[k]@ {
            None::<RowV>
        } else {
            Some(old(cur)@[k]@)
        }) by {
            assert(map_view(bwd@)[k] == opt_view(bwd@[k]));
        }
    }
    (fwd, bwd)
}

/// A version pointer counts applied commits, so it is never negative, and
/// with a well-formed history it never passes the log's length.
pub broadcast proof fn lemma_history_version_bounds(h: History)
    ensures
        #[trigger] h.spec_version() >= 0,
        h.wf() ==> h.spec_version() <= h.spec_versions().len(),
        h.wf() ==> h.spec_states().len() == h.spec_versions().len(),
{
}

/// Undoing never changes the log, only the version pointer: `k` undos from
/// version `v` land on version `v - k` (stopping at 1).
pub proof fn lemma_undo_times(m: HistoryModel, k: nat)
    requires
        k < m.version,
    ensures
        undo_times(m, k).versions == m.versions,
        undo_times(m, k).version == m.version - k,
    decreases k,
{
    if k > 0 {
        lemma_undo_times(m, (k - 1) as nat);
    }
}

/// Redoing never changes the log, only the version pointer: `k` redos from
/// version `v` land on version `v + k` (stopping at the newest).
pub proof fn lemma_redo_times(m: HistoryModel, k: nat)
    requires
        m.version + k <= m.versions.len(),
        m.version >= 1,
    ensures
        redo_times(m, k).versions == m.versions,
        redo_times(m, k).version == m.version + k,
    decreases k,
{
    if k > 0 {
        lemma_redo_times(m, (k - 1) as nat);
    }
}

/// Undoing `k` times from the newest of `n` committed versions and then
/// redoing `k` times returns the history to exactly where it was; and at
/// every intermediate step, the live buffer holds the matching historical
/// commit: after `j` undos it is commit `n - j`, and after `j` redos on the
/// way back it is commit `n - k + j`.
pub proof fn lemma_undo_redo_round_trip(m: HistoryModel, k: nat)
    requires
        m.versions.len() >= 1,
        m.version == m.versions.len(),
        k < m.versions.len(),
    ensures
        redo_times(undo_times(m, k), k) == m,
        forall|j: nat|
            j <= k ==> live_buffer(#[trigger] undo_times(m, j)) == m.versions[m.version - j - 1],
        forall|j: nat|
            j <= k ==> live_buffer(#[trigger] redo_times(undo_times(m, k), j)) == m.versions[
                m.version - k + j - 1],
{
    assert forall|j: nat| j <= k implies live_buffer(#[trigger] undo_times(m, j)) == m.versions[
        m.version - j - 1] by {
        lemma_undo_times(m, j);
    }
    lemma_undo_times(m, k);
    let down = undo_times(m, k);
    assert forall|j: nat| j <= k implies live_buffer(#[trigger] redo_times(down, j)) == m.versions[
        m.version - k + j - 1] by {
        lemma_redo_times(down, j);
    }
    lemma_redo_times(down, k);
    assert(redo_times(down, k) == m);
}

/// A commit lands the history at its newest version, so a redo right after
/// it does nothing: there is no discarded branch to return to.
pub proof fn lemma_redo_after_commit(m: HistoryModel)
    requires
        m.version == m.versions.len(),
    ensures
        spec_redo(m) == m,
{
}

} // verus!
