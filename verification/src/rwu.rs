//! Reader / writer / used facts and the compact table that stores one fact
//! per (live node, variable) pair.

use vstd::prelude::*;

verus! {

/// Dense index of a binding: a parameter, a local or a captured variable.
#[derive(Clone, Copy, PartialEq, Eq, Structural, Debug)]
pub struct Variable(pub u32);

/// Dense index of a program point at which liveness facts are recorded.
#[derive(Clone, Copy, PartialEq, Eq, Structural, Debug)]
pub struct LiveNode(pub u32);

impl Variable {
    pub fn get(&self) -> (r: usize)
        ensures
            r == self.0,
    {
        self.0 as usize
    }
}

impl LiveNode {
    pub fn get(&self) -> (r: usize)
        ensures
            r == self.0,
    {
        self.0 as usize
    }

    pub open spec fn valid(&self) -> bool {
        self.0 != 0xFFFF_FFFF
    }

    /// Every node but the one reserved to mean "no node".
    #[verifier::when_used_as_spec(valid)]
    pub fn is_valid(&self) -> (r: bool)
        ensures
            r == self.valid(),
    {
        self.0 != 0xFFFF_FFFF
    }
}

pub open spec fn no_node() -> LiveNode {
    LiveNode(0xFFFF_FFFF)
}

/// The node that stands for "no node".
#[verifier::when_used_as_spec(no_node)]
pub fn invalid_node() -> (r: LiveNode)
    ensures
        r == no_node(),
{
    LiveNode(0xFFFF_FFFF)
}

/// What is known of one variable at one live node.
#[derive(Clone, Copy, PartialEq, Eq, Structural, Debug)]
pub struct RWU {
    /// A later node that reads the value the variable holds here, if any.
    pub reader: LiveNode,
    /// A later node that overwrites the variable, if any.
    pub writer: LiveNode,
    /// Whether the value is read in a way that is more than re-storing it.
    pub used: bool,
}

impl RWU {
    /// The fact with neither reader nor writer.
    pub open spec fn dead(used: bool) -> RWU {
        RWU { reader: no_node(), writer: no_node(), used }
    }

    /// Neither a reader nor a writer is known.
    pub open spec fn degenerate(self) -> bool {
        !self.reader.valid() && !self.writer.valid()
    }

    /// Field by field: keep what `self` knows, take from `other` what `self`
    /// lacks.
    pub open spec fn union(self, other: RWU) -> RWU {
        RWU {
            reader: if self.reader.valid() {
                self.reader
            } else {
                other.reader
            },
            writer: if self.writer.valid() {
                self.writer
            } else {
                other.writer
            },
            used: self.used || other.used,
        }
    }

    /// `later` knows everything `self` knows: a valid reader or writer is
    /// kept as it is, and `used` stays set.
    pub open spec fn grows_to(self, later: RWU) -> bool {
        &&& self.reader.valid() ==> later.reader == self.reader
        &&& self.writer.valid() ==> later.writer == self.writer
        &&& self.used ==> later.used
    }

    /// How many of the three fields are still unset.
    pub open spec fn unset(self) -> nat {
        let r: nat = if self.reader.valid() { 0 } else { 1 };
        let w: nat = if self.writer.valid() { 0 } else { 1 };
        let u: nat = if self.used { 0 } else { 1 };
        r + w + u
    }
}

/// Tag of the fact without reader, writer or use.
pub const INV_INV_FALSE: u32 = 0xFFFF_FFFF;

/// Tag of the fact without reader or writer, but used.
pub const INV_INV_TRUE: u32 = 0xFFFF_FFFE;

/// The fact that a tag stands for, given the overflow store.
pub open spec fn unpack(tag: u32, store: Seq<RWU>) -> RWU {
    if tag == INV_INV_FALSE {
        RWU::dead(false)
    } else if tag == INV_INV_TRUE {
        RWU::dead(true)
    } else {
        store[tag as int]
    }
}

/// A table of facts, one row per live node and one column per variable.
///
/// Most facts have neither reader nor writer, so each cell is a 32-bit tag:
/// one of two reserved tags for the two degenerate facts, or an index into a
/// store of full facts.
pub struct RWUTable {
    live_nodes: usize,
    vars: usize,
    packed_rwus: Vec<u32>,
    unpacked_rwus: Vec<RWU>,
}

pub proof fn lemma_cell_in_range(ln: int, var: int, live_nodes: int, vars: int)
    requires
        0 <= ln < live_nodes,
        0 <= var < vars,
    ensures
        0 <= ln * vars + var < live_nodes * vars,
        0 <= ln * vars,
{
    assert(ln * vars + vars <= live_nodes * vars) by (nonlinear_arith)
        requires
            0 <= ln < live_nodes,
            0 <= vars,
    ;
    assert(0 <= ln * vars) by (nonlinear_arith)
        requires
            0 <= ln,
            0 <= vars,
    ;
}

pub proof fn lemma_cells_distinct(ln1: int, var1: int, ln2: int, var2: int, vars: int)
    requires
        0 <= ln1,
        0 <= ln2,
        0 <= var1 < vars,
        0 <= var2 < vars,
        ln1 != ln2 || var1 != var2,
    ensures
        ln1 * vars + var1 != ln2 * vars + var2,
{
    if ln1 < ln2 {
        assert(ln1 * vars + vars <= ln2 * vars) by (nonlinear_arith)
            requires
                0 <= ln1 < ln2,
                0 <= vars,
        ;
    } else if ln2 < ln1 {
        assert(ln2 * vars + vars <= ln1 * vars) by (nonlinear_arith)
            requires
                0 <= ln2 < ln1,
                0 <= vars,
        ;
    }
}

impl RWUTable {
    pub closed spec fn live_nodes(&self) -> nat {
        self.live_nodes as nat
    }

    pub closed spec fn vars(&self) -> nat {
        self.vars as nat
    }

    /// The tags are in range, a fact in the store has a reader or a writer,
    /// and a compaction always leaves room for one more such fact.
    pub closed spec fn wf(&self) -> bool {
        &&& self.packed_rwus.len() == self.live_nodes * self.vars
        &&& self.packed_rwus.len() < INV_INV_TRUE
        &&& forall|i: int|
            0 <= i < self.packed_rwus.len() ==> {
                let tag = #[trigger] self.packed_rwus[i];
                tag >= INV_INV_TRUE || (tag < self.unpacked_rwus.len()
                    && !self.unpacked_rwus[tag as int].degenerate())
            }
    }

    pub closed spec fn cell(&self, ln: int, var: int) -> RWU {
        unpack(self.packed_rwus[ln * self.vars + var], self.unpacked_rwus@)
    }

    /// The table as rows of facts: `self@[ln][var]`.
    pub closed spec fn view(&self) -> Seq<Seq<RWU>> {
        Seq::new(
            self.live_nodes as nat,
            |ln: int| Seq::new(self.vars as nat, |var: int| self.cell(ln, var)),
        )
    }

    pub proof fn lemma_view(&self)
        ensures
            self@.len() == self.live_nodes(),
            forall|ln: int|
                0 <= ln < self.live_nodes() ==> (#[trigger] self@[ln]).len() == self.vars(),
    {
    }

    /// A table in which every fact is dead and unused, or `None` where the
    /// table would have more cells than a tag can tell apart.
    pub fn new(live_nodes: usize, vars: usize) -> (r: Option<RWUTable>)
        ensures
            r is Some <==> live_nodes * vars < INV_INV_TRUE,
            r is Some ==> {
                let t = r->Some_0;
                &&& t.wf()
                &&& t.live_nodes() == live_nodes
                &&& t.vars() == vars
                &&& t@ == Seq::new(
                    live_nodes as nat,
                    |ln: int| Seq::new(vars as nat, |var: int| RWU::dead(false)),
                )
            },
    {
        match live_nodes.checked_mul(vars) {
            None => None,
            Some(cells) => {
                if cells >= INV_INV_TRUE as usize {
                    None
                } else {
                    let packed_rwus = vec![INV_INV_FALSE; cells];
                    let t = RWUTable { live_nodes, vars, packed_rwus, unpacked_rwus: Vec::new() };
                    proof {
                        assert forall|ln: int| 0 <= ln < live_nodes implies #[trigger] t@[ln]
                            == Seq::new(vars as nat, |var: int| RWU::dead(false)) by {
                            assert forall|var: int| 0 <= var < vars implies t.cell(ln, var)
                                == RWU::dead(false) by {
                                lemma_cell_in_range(ln, var, live_nodes as int, vars as int);
                            }
                            assert(t@[ln] =~= Seq::new(vars as nat, |var: int| RWU::dead(false)));
                        }
                        assert(t@ =~= Seq::new(
                            live_nodes as nat,
                            |ln: int| Seq::new(vars as nat, |var: int| RWU::dead(false)),
                        ));
                    }
                    Some(t)
                }
            },
        }
    }

    pub fn num_live_nodes(&self) -> (r: usize)
        ensures
            r == self.live_nodes(),
    {
        self.live_nodes
    }

    pub fn num_vars(&self) -> (r: usize)
        ensures
            r == self.vars(),
    {
        self.vars
    }

    fn idx(&self, ln: LiveNode, var: Variable) -> (r: usize)
        requires
            self.wf(),
            ln.0 < self.live_nodes(),
            var.0 < self.vars(),
        ensures
            r == ln.0 * self.vars + var.0,
            r < self.packed_rwus.len(),
    {
        proof {
            lemma_cell_in_range(ln.0 as int, var.0 as int, self.live_nodes as int, self.vars as int);
        }
        ln.get() * self.vars + var.get()
    }

    /// The fact at a cell.
    pub fn get(&self, ln: LiveNode, var: Variable) -> (r: RWU)
        requires
            self.wf(),
            ln.0 < self.live_nodes(),
            var.0 < self.vars(),
        ensures
            r == self@[ln.0 as int][var.0 as int],
    {
        let packed_rwu = self.packed_rwus[self.idx(ln, var)];
        if packed_rwu == INV_INV_FALSE {
            RWU { reader: invalid_node(), writer: invalid_node(), used: false }
        } else if packed_rwu == INV_INV_TRUE {
            RWU { reader: invalid_node(), writer: invalid_node(), used: true }
        } else {
            self.unpacked_rwus[packed_rwu as usize]
        }
    }

    /// The reader of the fact at a cell.
    pub fn get_reader(&self, ln: LiveNode, var: Variable) -> (r: LiveNode)
        requires
            self.wf(),
            ln.0 < self.live_nodes(),
            var.0 < self.vars(),
        ensures
            r == self@[ln.0 as int][var.0 as int].reader,
    {
        let packed_rwu = self.packed_rwus[self.idx(ln, var)];
        if packed_rwu == INV_INV_FALSE || packed_rwu == INV_INV_TRUE {
            invalid_node()
        } else {
            self.unpacked_rwus[packed_rwu as usize].reader
        }
    }

    /// The writer of the fact at a cell.
    pub fn get_writer(&self, ln: LiveNode, var: Variable) -> (r: LiveNode)
        requires
            self.wf(),
            ln.0 < self.live_nodes(),
            var.0 < self.vars(),
        ensures
            r == self@[ln.0 as int][var.0 as int].writer,
    {
        let packed_rwu = self.packed_rwus[self.idx(ln, var)];
        if packed_rwu == INV_INV_FALSE || packed_rwu == INV_INV_TRUE {
            invalid_node()
        } else {
            self.unpacked_rwus[packed_rwu as usize].writer
        }
    }

    /// The `used` flag of the fact at a cell.
    pub fn get_used(&self, ln: LiveNode, var: Variable) -> (r: bool)
        requires
            self.wf(),
            ln.0 < self.live_nodes(),
            var.0 < self.vars(),
        ensures
            r == self@[ln.0 as int][var.0 as int].used,
    {
        let packed_rwu = self.packed_rwus[self.idx(ln, var)];
        if packed_rwu == INV_INV_FALSE {
            false
        } else if packed_rwu == INV_INV_TRUE {
            true
        } else {
            self.unpacked_rwus[packed_rwu as usize].used
        }
    }

    /// Whether the cell holds the fact without reader, writer or use.
    pub fn is_dead_unused(&self, ln: LiveNode, var: Variable) -> (r: bool)
        requires
            self.wf(),
            ln.0 < self.live_nodes(),
            var.0 < self.vars(),
        ensures
            r == (self@[ln.0 as int][var.0 as int] == RWU::dead(false)),
    {
        self.packed_rwus[self.idx(ln, var)] == INV_INV_FALSE
    }

    proof fn lemma_set_tag(old_t: &RWUTable, new_t: &RWUTable, ln: int, var: int, rwu: RWU)
        requires
            old_t.wf(),
            0 <= ln < old_t.live_nodes,
            0 <= var < old_t.vars,
            new_t.live_nodes == old_t.live_nodes,
            new_t.vars == old_t.vars,
            new_t.packed_rwus.len() == old_t.packed_rwus.len(),
            forall|i: int|
                0 <= i < old_t.packed_rwus.len() && i != ln * old_t.vars + var ==> unpack(
                    #[trigger] new_t.packed_rwus[i],
                    new_t.unpacked_rwus@,
                ) == unpack(old_t.packed_rwus[i], old_t.unpacked_rwus@),
            unpack(new_t.packed_rwus[ln * old_t.vars + var], new_t.unpacked_rwus@) == rwu,
        ensures
            new_t@ == old_t@.update(ln, old_t@[ln].update(var, rwu)),
    {
        let goal = old_t@.update(ln, old_t@[ln].update(var, rwu));
        assert forall|l: int| 0 <= l < old_t.live_nodes implies #[trigger] new_t@[l] == goal[l] by {
            assert forall|v: int| 0 <= v < old_t.vars implies new_t.cell(l, v) == goal[l][v] by {
                lemma_cell_in_range(l, v, old_t.live_nodes as int, old_t.vars as int);
                if l != ln || v != var {
                    lemma_cells_distinct(l, v, ln, var, old_t.vars as int);
                }
            }
            assert(new_t@[l] =~= goal[l]);
        }
        assert(new_t@ =~= goal);
    }

    /// Copies the fact of `var` from row `src` to row `dst`, tag for tag.
    pub fn copy_packed(&mut self, dst: LiveNode, src: LiveNode, var: Variable)
        requires
            old(self).wf(),
            dst.0 < old(self).live_nodes(),
            src.0 < old(self).live_nodes(),
            var.0 < old(self).vars(),
        ensures
            final(self).wf(),
            final(self).live_nodes() == old(self).live_nodes(),
            final(self).vars() == old(self).vars(),
            final(self)@ == old(self)@.update(
                dst.0 as int,
                old(self)@[dst.0 as int].update(var.0 as int, old(self)@[src.0 as int][var.0 as int]),
            ),
    {
        let dst_idx = self.idx(dst, var);
        let src_idx = self.idx(src, var);
        let tag = self.packed_rwus[src_idx];
        self.packed_rwus.set(dst_idx, tag);
        proof {
            Self::lemma_set_tag(
                old(self),
                self,
                dst.0 as int,
                var.0 as int,
                old(self)@[src.0 as int][var.0 as int],
            );
        }
    }

    /// Rewrites the store so that it holds one fact per cell that points into
    /// it. No fact changes.
    fn compact(&mut self)
        requires
            old(self).wf(),
        ensures
            final(self).wf(),
            final(self).live_nodes() == old(self).live_nodes(),
            final(self).vars() == old(self).vars(),
            final(self)@ == old(self)@,
            final(self).unpacked_rwus.len() <= final(self).packed_rwus.len(),
    {
        let mut store: Vec<RWU> = Vec::new();
        let mut i: usize = 0;
        let n = self.packed_rwus.len();
        while i < n
            invariant
                i <= n,
                n == self.packed_rwus.len(),
                n == old(self).packed_rwus.len(),
                n < INV_INV_TRUE,
                self.live_nodes == old(self).live_nodes,
                self.vars == old(self).vars,
                self.unpacked_rwus == old(self).unpacked_rwus,
                old(self).wf(),
                store.len() <= i,
                forall|j: int|
                    0 <= j < i ==> {
                        let tag = #[trigger] self.packed_rwus[j];
                        &&& (tag >= INV_INV_TRUE || (tag < store.len() && !store[tag as int].degenerate()))
                        &&& unpack(tag, store@) == unpack(
                            old(self).packed_rwus[j],
                            old(self).unpacked_rwus@,
                        )
                    },
                forall|j: int| i <= j < n ==> self.packed_rwus[j] == old(self).packed_rwus[j],
            decreases n - i,
        {
            let tag = self.packed_rwus[i];
            if tag < INV_INV_TRUE {
                let rwu = self.unpacked_rwus[tag as usize];
                let at = store.len();
                store.push(rwu);
                self.packed_rwus.set(i, at as u32);
            }
            i = i + 1;
        }
        self.unpacked_rwus = store;
        proof {
            assert forall|l: int| 0 <= l < self.live_nodes implies #[trigger] self@[l] == old(
                self,
            )@[l] by {
                assert forall|v: int| 0 <= v < self.vars implies self.cell(l, v) == old(self).cell(
                    l,
                    v,
                ) by {
                    lemma_cell_in_range(l, v, self.live_nodes as int, self.vars as int);
                }
                assert(self@[l] =~= old(self)@[l]);
            }
            assert(self@ =~= old(self)@);
        }
    }

    /// Sets the fact at a cell.
    pub fn assign_unpacked(&mut self, ln: LiveNode, var: Variable, rwu: RWU)
        requires
            old(self).wf(),
            ln.0 < old(self).live_nodes(),
            var.0 < old(self).vars(),
        ensures
            final(self).wf(),
            final(self).live_nodes() == old(self).live_nodes(),
            final(self).vars() == old(self).vars(),
            final(self)@ == old(self)@.update(
                ln.0 as int,
                old(self)@[ln.0 as int].update(var.0 as int, rwu),
            ),
    {
        if rwu.reader == invalid_node() && rwu.writer == invalid_node() {
            // The fact that the cell pointed to, if any, stays in the store:
            // other cells may share it.
            let idx = self.idx(ln, var);
            let tag = if rwu.used {
                INV_INV_TRUE
            } else {
                INV_INV_FALSE
            };
            self.packed_rwus.set(idx, tag);
            proof {
                Self::lemma_set_tag(old(self), self, ln.0 as int, var.0 as int, rwu);
            }
        } else {
            if self.unpacked_rwus.len() >= INV_INV_TRUE as usize {
                self.compact();
            }
            let ghost mid = *self;
            let idx = self.idx(ln, var);
            let at = self.unpacked_rwus.len();
            self.unpacked_rwus.push(rwu);
            self.packed_rwus.set(idx, at as u32);
            proof {
                Self::lemma_set_tag(&mid, self, ln.0 as int, var.0 as int, rwu);
            }
        }
    }

    /// Resets the fact at a cell to the one without reader or writer, keeping
    /// only its `used` flag.
    pub fn assign_inv_inv(&mut self, ln: LiveNode, var: Variable)
        requires
            old(self).wf(),
            ln.0 < old(self).live_nodes(),
            var.0 < old(self).vars(),
        ensures
            final(self).wf(),
            final(self).live_nodes() == old(self).live_nodes(),
            final(self).vars() == old(self).vars(),
            final(self)@ == old(self)@.update(
                ln.0 as int,
                old(self)@[ln.0 as int].update(
                    var.0 as int,
                    RWU::dead(old(self)@[ln.0 as int][var.0 as int].used),
                ),
            ),
    {
        let used = self.get_used(ln, var);
        let idx = self.idx(ln, var);
        let tag = if used {
            INV_INV_TRUE
        } else {
            INV_INV_FALSE
        };
        self.packed_rwus.set(idx, tag);
        proof {
            Self::lemma_set_tag(old(self), self, ln.0 as int, var.0 as int, RWU::dead(used));
        }
    }
}

} // verus!
