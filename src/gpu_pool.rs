//! Bookkeeping of GPU textures: which ids exist, their size and format, and
//! who owns them. The device work itself is described by `GpuCommand`s that
//! the host drains and performs in order.

use vstd::prelude::*;
use crate::value::{TextureFormat, TextureHandle, TextureId};

verus! {

/// Ids below this are reserved for the system textures.
pub const SYSTEM_TEXTURE_COUNT: u64 = 4;

/// Who is responsible for releasing a texture.
#[derive(Debug, Clone, Copy, PartialEq, Eq, Hash, Structural)]
pub enum TextureOwner {
    Engine,
    Node(usize),
}

/// A live texture.
#[derive(Debug, Clone, Copy, PartialEq, Eq, Structural)]
pub struct TextureEntry {
    pub id: TextureId,
    pub width: u32,
    pub height: u32,
    pub fmt: TextureFormat,
    pub owner: TextureOwner,
}

/// Device work for the host to perform.
#[derive(Debug)]
pub enum GpuCommand {
    /// Create texture `id`, uploading `data` if given.
    Create { id: TextureId, width: u32, height: u32, fmt: TextureFormat, data: Option<Vec<u8>> },
    /// Give texture `id` new, zeroed storage of this size, keeping its id.
    Replace { id: TextureId, width: u32, height: u32, fmt: TextureFormat },
    /// Free texture `id`.
    Release { id: TextureId },
}

/// Owns the texture table, keyed by stable id.
#[derive(Debug)]
pub struct GPUResourcePool {
    pub entries: Vec<TextureEntry>,
    pub next_id: u64,
    pub commands: Vec<GpuCommand>,
}

/// `e` belongs to node `n`.
pub open spec fn owned_by(e: TextureEntry, n: usize) -> bool {
    e.owner == TextureOwner::Node(n)
}

/// Selects the entries not owned by node `n`.
pub open spec fn not_owned_by(n: usize) -> spec_fn(TextureEntry) -> bool {
    |e: TextureEntry| !owned_by(e, n)
}

/// Selects the entries owned by node `n`.
pub open spec fn owned_by_node(n: usize) -> spec_fn(TextureEntry) -> bool {
    |e: TextureEntry| owned_by(e, n)
}

/// Selects the entries whose id is not `id`.
pub open spec fn id_other_than(id: TextureId) -> spec_fn(TextureEntry) -> bool {
    |e: TextureEntry| e.id != id
}

/// Node `n` owns the live texture `id`.
pub open spec fn owns(entries: Seq<TextureEntry>, id: TextureId, n: usize) -> bool {
    exists|i: int| #[trigger] index_of(entries, id, i) && owned_by(entries[i], n)
}

/// Index of the entry with id `id`, if any.
pub open spec fn index_of(entries: Seq<TextureEntry>, id: TextureId, i: int) -> bool {
    0 <= i < entries.len() && entries[i].id == id
}

/// Some entry has id `id`.
pub open spec fn has_id(entries: Seq<TextureEntry>, id: TextureId) -> bool {
    exists|i: int| #[trigger] index_of(entries, id, i)
}

/// `after` is `before` followed by a release of each entry of `gone`.
pub open spec fn releases_appended(
    before: Seq<GpuCommand>,
    after: Seq<GpuCommand>,
    gone: Seq<TextureEntry>,
) -> bool {
    &&& after.len() == before.len() + gone.len()
    &&& forall|k: int| 0 <= k < before.len() ==> after[k] == before[k]
    &&& forall|k: int| 0 <= k < gone.len() ==> #[trigger] after[before.len() + k]
        == GpuCommand::Release { id: gone[k].id }
}

impl GPUResourcePool {
    /// Ids are unique and below `next_id`, which is past the reserved range.
    pub open spec fn wf(&self) -> bool {
        &&& self.next_id >= SYSTEM_TEXTURE_COUNT
        &&& forall|i: int, j: int| 0 <= i < j < self.entries@.len() ==> self.entries@[i].id
            != self.entries@[j].id
        &&& forall|i: int| 0 <= i < self.entries@.len() ==> (#[trigger] self.entries@[i]).id.0
            < self.next_id
    }

    /// An empty pool; user ids start after the reserved range.
    pub fn new() -> (r: GPUResourcePool)
        ensures
            r.wf(),
            r.entries@.len() == 0,
            r.commands@.len() == 0,
            r.next_id == SYSTEM_TEXTURE_COUNT,
    {
        GPUResourcePool { entries: Vec::new(), next_id: SYSTEM_TEXTURE_COUNT, commands: Vec::new() }
    }

    fn find(&self, id: TextureId) -> (r: Option<usize>)
        ensures
            r matches Some(i) ==> index_of(self.entries@, id, i as int),
            r is None ==> !has_id(self.entries@, id),
    {
        let mut i: usize = 0;
        while i < self.entries.len()
            invariant
                i <= self.entries@.len(),
                forall|k: int| 0 <= k < i ==> self.entries@[k].id != id,
            decreases self.entries@.len() - i,
        {
            if self.entries[i].id == id {
                return Some(i);
            }
            i = i + 1;
        }
        None
    }

    /// Register a system texture at its reserved id and upload its pixels.
    pub fn insert_texture(&mut self, handle: TextureHandle, data: Vec<u8>)
        requires
            old(self).wf(),
            handle.id matches Some(id) && id.0 < SYSTEM_TEXTURE_COUNT && !has_id(
                old(self).entries@,
                id,
            ),
        ensures
            final(self).wf(),
            final(self).next_id == old(self).next_id,
            final(self).entries@ == old(self).entries@.push(
                TextureEntry {
                    id: handle.id->Some_0,
                    width: handle.width,
                    height: handle.height,
                    fmt: handle.fmt,
                    owner: TextureOwner::Engine,
                },
            ),
            final(self).commands@.len() == old(self).commands@.len() + 1,
    {
        let id = handle.id.unwrap();
        self.entries.push(
            TextureEntry {
                id,
                width: handle.width,
                height: handle.height,
                fmt: handle.fmt,
                owner: TextureOwner::Engine,
            },
        );
        self.commands.push(
            GpuCommand::Create {
                id,
                width: handle.width,
                height: handle.height,
                fmt: handle.fmt,
                data: Some(data),
            },
        );
        proof {
            assert forall|i: int| 0 <= i < old(self).entries@.len() implies old(self).entries@[i].id != id by {
                if old(self).entries@[i].id == id {
                    assert(index_of(old(self).entries@, id, i));
                }
            }
        }
    }

    /// Allocate a texture of the handle's size and format for `owner`, with
    /// `data` as its initial pixels if given. Fails only when ids run out.
    pub fn alloc_texture(
        &mut self,
        handle: &TextureHandle,
        owner: TextureOwner,
        data: Option<Vec<u8>>,
    ) -> (r: Option<TextureId>)
        requires
            old(self).wf(),
        ensures
            final(self).wf(),
            r matches Some(id) ==> id.0 == old(self).next_id && !has_id(old(self).entries@, id)
                && final(self).entries@ == old(self).entries@.push(
                TextureEntry {
                    id,
                    width: handle.width,
                    height: handle.height,
                    fmt: handle.fmt,
                    owner,
                },
            ) && final(self).commands@.len() == old(self).commands@.len() + 1,
            r is None ==> final(self).entries@ == old(self).entries@ && final(self).commands@
                == old(self).commands@,
            old(self).next_id < u64::MAX ==> r is Some,
            r is None ==> final(self).next_id == old(self).next_id,
            r matches Some(id) ==> final(self).commands@ == old(self).commands@.push(
                GpuCommand::Create { id, width: handle.width, height: handle.height, fmt: handle.fmt, data },
            ) && final(self).next_id == old(self).next_id + 1,
            final(self).next_id >= old(self).next_id,
    {
        if self.next_id == u64::MAX {
            return None;
        }
        let id = TextureId(self.next_id);
        self.next_id = self.next_id + 1;
        self.entries.push(
            TextureEntry { id, width: handle.width, height: handle.height, fmt: handle.fmt, owner },
        );
        self.commands.push(
            GpuCommand::Create { id, width: handle.width, height: handle.height, fmt: handle.fmt, data },
        );
        proof {
            assert forall|i: int| #[trigger] index_of(old(self).entries@, id, i) implies false by {}
        }
        Some(id)
    }

    /// The entry of texture `id`, if live.
    pub fn get_texture(&self, id: TextureId) -> (r: Option<TextureEntry>)
        ensures
            r matches Some(e) ==> e.id == id && self.entries@.contains(e),
            r is None ==> !has_id(self.entries@, id),
    {
        match self.find(id) {
            Some(i) => Some(self.entries[i]),
            None => None,
        }
    }

    /// Give texture `id` new storage of the given size, keeping its id; does
    /// nothing if `id` is not live.
    pub fn replace_texture(&mut self, id: TextureId, width: u32, height: u32, fmt: TextureFormat)
        requires
            old(self).wf(),
        ensures
            final(self).wf(),
            final(self).next_id == old(self).next_id,
            final(self).entries@.len() == old(self).entries@.len(),
            forall|i: int| 0 <= i < old(self).entries@.len() ==> {
                let e = old(self).entries@[i];
                #[trigger] final(self).entries@[i] == if e.id == id {
                    TextureEntry { id, width, height, fmt, owner: e.owner }
                } else {
                    e
                }
            },
            has_id(old(self).entries@, id) ==> final(self).commands@ == old(self).commands@.push(
                GpuCommand::Replace { id, width, height, fmt },
            ),
            !has_id(old(self).entries@, id) ==> final(self).commands@ == old(self).commands@,
    {
        if self.find(id).is_none() {
            proof {
                assert forall|k: int| 0 <= k < self.entries@.len() implies self.entries@[k].id != id by {
                    assert(!index_of(self.entries@, id, k));
                }
            }
        }
        if let Some(i) = self.find(id) {
            proof {
                assert forall|k: int| 0 <= k < self.entries@.len() && self.entries@[k].id == id implies k
                    == i by {
                    if k < i {
                        assert(self.entries@[k].id != self.entries@[i as int].id);
                    } else if k > i {
                        assert(self.entries@[i as int].id != self.entries@[k].id);
                    }
                }
            }
            let owner = self.entries[i].owner;
            self.entries.set(i, TextureEntry { id, width, height, fmt, owner });
            self.commands.push(GpuCommand::Replace { id, width, height, fmt });
        }
    }

    /// Release texture `id`, if live.
    pub fn release_texture(&mut self, id: TextureId)
        requires
            old(self).wf(),
        ensures
            final(self).wf(),
            final(self).next_id == old(self).next_id,
            final(self).entries@ == old(self).entries@.filter(id_other_than(id)),
            !has_id(final(self).entries@, id),
            forall|x: TextureId, n: usize| x != id && #[trigger] owns(old(self).entries@, x, n) ==> owns(
                final(self).entries@,
                x,
                n,
            ),
            forall|x: TextureId| #[trigger] has_id(final(self).entries@, x) ==> has_id(old(self).entries@, x),
            has_id(old(self).entries@, id) ==> final(self).commands@ == old(self).commands@.push(
                GpuCommand::Release { id },
            ),
            !has_id(old(self).entries@, id) ==> final(self).commands@ == old(self).commands@,
    {
        let ghost before = self.entries@;
        match self.find(id) {
            Some(i) => {
                self.entries.remove(i);
                self.commands.push(GpuCommand::Release { id });
                proof {
                    lemma_filter_one(before, id, i as int);
                    let after = self.entries@;
                    assert forall|x: TextureId, n: usize| x != id && #[trigger] owns(before, x, n) implies owns(after, x, n) by {
                        let j = choose|j: int| #[trigger] index_of(before, x, j) && owned_by(before[j], n);
                        if j < i {
                            assert(index_of(after, x, j));
                        } else {
                            assert(j != i);
                            assert(after[j - 1] == before[j]);
                            assert(index_of(after, x, j - 1));
                        }
                    }
                    assert forall|x: TextureId| #[trigger] has_id(after, x) implies has_id(before, x) by {
                        let j = choose|j: int| #[trigger] index_of(after, x, j);
                        if j < i {
                            assert(index_of(before, x, j));
                        } else {
                            assert(index_of(before, x, j + 1));
                        }
                    }
                    assert(!has_id(after, id)) by {
                        if has_id(after, id) {
                            let j = choose|j: int| #[trigger] index_of(after, id, j);
                            if j < i {
                                assert(before[j].id == before[i as int].id);
                            } else {
                                assert(before[j + 1].id == before[i as int].id);
                            }
                        }
                    }
                }
            },
            None => {
                proof {
                    lemma_filter_none(before, id);
                }
            },
        }
    }

    /// Release every texture owned by node `n`, in table order; all others
    /// stay.
    pub fn release_node_textures(&mut self, n: usize)
        requires
            old(self).wf(),
        ensures
            final(self).wf(),
            final(self).next_id == old(self).next_id,
            final(self).entries@ == old(self).entries@.filter(not_owned_by(n)),
            releases_appended(
                old(self).commands@,
                final(self).commands@,
                old(self).entries@.filter(owned_by_node(n)),
            ),
    {
        let ghost before = self.entries@;
        let mut kept: Vec<TextureEntry> = Vec::new();
        let mut i: usize = 0;
        while i < self.entries.len()
            invariant
                self.entries@ == before,
                old(self).wf(),
                before == old(self).entries@,
                self.next_id == old(self).next_id,
                i <= before.len(),
                kept@ == before.subrange(0, i as int).filter(not_owned_by(n)),
                releases_appended(
                    old(self).commands@,
                    self.commands@,
                    before.subrange(0, i as int).filter(owned_by_node(n)),
                ),
            decreases before.len() - i,
        {
            let e = self.entries[i];
            proof {
                reveal(Seq::filter);
                let pre = before.subrange(0, i as int);
                let next = before.subrange(0, i + 1);
                assert(next.drop_last() =~= pre);
                assert(next.last() == e);
                assert(next.filter(not_owned_by(n)) == if not_owned_by(n)(e) {
                    pre.filter(not_owned_by(n)).push(e)
                } else {
                    pre.filter(not_owned_by(n))
                });
                assert(next.filter(owned_by_node(n)) == if owned_by_node(n)(e) {
                    pre.filter(owned_by_node(n)).push(e)
                } else {
                    pre.filter(owned_by_node(n))
                });
            }
            let owned = match e.owner {
                TextureOwner::Node(m) => m == n,
                TextureOwner::Engine => false,
            };
            let ghost cmds0 = self.commands@;
            let ghost gone0 = before.subrange(0, i as int).filter(owned_by_node(n));
            let ghost next = before.subrange(0, i + 1);
            if owned {
                assert(next.filter(not_owned_by(n)) == before.subrange(0, i as int).filter(not_owned_by(n)));
                assert(next.filter(owned_by_node(n)) == gone0.push(e));
                self.commands.push(GpuCommand::Release { id: e.id });
                proof {
                    let gone1 = gone0.push(e);
                    assert forall|k: int| 0 <= k < gone1.len() implies #[trigger] self.commands@[old(
                        self,
                    ).commands@.len() + k] == GpuCommand::Release { id: gone1[k].id } by {
                        if k < gone0.len() {
                            assert(cmds0[old(self).commands@.len() + k] == GpuCommand::Release {
                                id: gone0[k].id,
                            });
                        }
                    }
                }
            } else {
                assert(next.filter(owned_by_node(n)) == gone0);
                kept.push(e);
            }
            i = i + 1;
        }
        proof {
            assert(before.subrange(0, before.len() as int) =~= before);
            lemma_filter_keeps_distinct(before, not_owned_by(n));
            lemma_filter_below(before, not_owned_by(n), self.next_id);
        }
        self.entries = kept;
    }

    /// Make the handle's texture exist at its size: allocate it for `owner`
    /// if it has no id, give it new storage if its size changed, else do
    /// nothing. An id that is not live is left alone. Calling it again on
    /// the resulting handle changes nothing.
    pub fn ensure_texture(&mut self, handle: &mut TextureHandle, owner: TextureOwner)
        requires
            old(self).wf(),
        ensures
            final(self).wf(),
            final(self).next_id >= old(self).next_id,
            final(handle).width == old(handle).width,
            final(handle).height == old(handle).height,
            final(handle).fmt == old(handle).fmt,
            old(handle).id is Some ==> final(handle).id == old(handle).id,
            old(handle).id is None ==> (final(handle).id matches Some(id) ==> final(self).entries@
                == old(self).entries@.push(
                TextureEntry {
                    id,
                    width: old(handle).width,
                    height: old(handle).height,
                    fmt: old(handle).fmt,
                    owner,
                },
            ) && !has_id(old(self).entries@, id)),
            old(handle).id is None && final(handle).id is None ==> final(self).entries@ == old(
                self,
            ).entries@,
            old(handle).id is Some ==> final(self).entries@.len() == old(self).entries@.len()
                && forall|i: int| 0 <= i < old(self).entries@.len() ==> (#[trigger] final(self).entries@[i]).id
                == old(self).entries@[i].id && final(self).entries@[i].owner
                == old(self).entries@[i].owner,
            old(handle).id matches Some(id) ==> forall|i: int| #[trigger] index_of(old(self).entries@, id, i)
                ==> final(self).entries@[i].width == old(handle).width && final(self).entries@[i].height
                == old(handle).height,
            forall|x: TextureId, n: usize| #[trigger] owns(old(self).entries@, x, n) ==> owns(final(self).entries@, x, n),
            final(self).next_id <= old(self).next_id + 1,
            old(handle).id is None && old(self).next_id < u64::MAX ==> final(handle).id == Some(
                TextureId(old(self).next_id),
            ),
            old(handle).id is Some && (forall|i: int| #[trigger] index_of(old(self).entries@, old(handle).id->Some_0, i)
                ==> old(self).entries@[i].width == old(handle).width && old(self).entries@[i].height
                == old(handle).height) ==> final(self).entries@ == old(self).entries@ && final(self).commands@
                == old(self).commands@ && final(self).next_id == old(self).next_id,
    {
        let ghost e0 = self.entries@;
        match handle.id {
            None => {
                let id = self.alloc_texture(handle, owner, None);
                handle.id = id;
                proof {
                    assert forall|x: TextureId, n: usize| #[trigger] owns(e0, x, n) implies owns(self.entries@, x, n) by {
                        let j = choose|j: int| #[trigger] index_of(e0, x, j) && owned_by(e0[j], n);
                        assert(index_of(self.entries@, x, j));
                    }
                }
            },
            Some(id) => {
                if let Some(e) = self.get_texture(id) {
                    proof {
                        let i = choose|i: int| 0 <= i < self.entries@.len() && self.entries@[i] == e;
                        assert(index_of(self.entries@, id, i));
                    }
                    if e.width != handle.width || e.height != handle.height {
                        self.replace_texture(id, handle.width, handle.height, e.fmt);
                        proof {
                            assert forall|x: TextureId, n: usize| #[trigger] owns(e0, x, n) implies owns(self.entries@, x, n) by {
                                let j = choose|j: int| #[trigger] index_of(e0, x, j) && owned_by(e0[j], n);
                                assert(index_of(self.entries@, x, j));
                            }
                        }
                    }
                }
            },
        }
    }

    /// Hand the pending device work to the host, in order.
    pub fn take_commands(&mut self) -> (r: Vec<GpuCommand>)
        ensures
            r@ == old(self).commands@,
            final(self).commands@.len() == 0,
            final(self).entries@ == old(self).entries@,
            final(self).next_id == old(self).next_id,
    {
        let mut r: Vec<GpuCommand> = Vec::new();
        std::mem::swap(&mut r, &mut self.commands);
        r
    }
}

proof fn lemma_filter_none(s: Seq<TextureEntry>, id: TextureId)
    requires
        !has_id(s, id),
    ensures
        s.filter(id_other_than(id)) == s,
    decreases s.len(),
{
    reveal(Seq::filter);
    if s.len() > 0 {
        assert(!has_id(s.drop_last(), id)) by {
            if has_id(s.drop_last(), id) {
                let i = choose|i: int| index_of(s.drop_last(), id, i);
                assert(index_of(s, id, i));
            }
        }
        lemma_filter_none(s.drop_last(), id);
        assert(index_of(s, id, s.len() - 1) ==> false);
        assert(s.drop_last().push(s.last()) =~= s);
    }
}

proof fn lemma_filter_one(s: Seq<TextureEntry>, id: TextureId, i: int)
    requires
        index_of(s, id, i),
        forall|a: int, b: int| 0 <= a < b < s.len() ==> s[a].id != s[b].id,
    ensures
        s.filter(id_other_than(id)) == s.remove(i),
    decreases s.len(),
{
    reveal(Seq::filter);
    if i == s.len() - 1 {
        assert(!has_id(s.drop_last(), id)) by {
            if has_id(s.drop_last(), id) {
                let j = choose|j: int| index_of(s.drop_last(), id, j);
                assert(s[j].id == s[i].id);
            }
        }
        lemma_filter_none(s.drop_last(), id);
        assert(s.remove(i) =~= s.drop_last());
    } else {
        lemma_filter_one(s.drop_last(), id, i);
        assert(s.last().id != id);
        assert(s.drop_last().remove(i).push(s.last()) =~= s.remove(i));
    }
}

proof fn lemma_filter_keeps_distinct(s: Seq<TextureEntry>, p: spec_fn(TextureEntry) -> bool)
    requires
        forall|a: int, b: int| 0 <= a < b < s.len() ==> s[a].id != s[b].id,
    ensures
        forall|a: int, b: int| 0 <= a < b < s.filter(p).len() ==> s.filter(p)[a].id != s.filter(
            p,
        )[b].id,
        forall|k: int| 0 <= k < s.filter(p).len() ==> s.contains(#[trigger] s.filter(p)[k]),
    decreases s.len(),
{
    reveal(Seq::filter);
    if s.len() > 0 {
        lemma_filter_keeps_distinct(s.drop_last(), p);
        let f = s.drop_last().filter(p);
        assert forall|k: int| 0 <= k < f.len() implies f[k].id != s.last().id by {
            assert(s.drop_last().contains(f[k]));
            let j = choose|j: int| 0 <= j < s.drop_last().len() && s.drop_last()[j] == f[k];
            assert(s[j] == f[k]);
        }
        assert forall|k: int| 0 <= k < s.filter(p).len() implies s.contains(#[trigger] s.filter(p)[k]) by {
            if k < f.len() {
                let j = choose|j: int| 0 <= j < s.drop_last().len() && s.drop_last()[j] == f[k];
                assert(s[j] == f[k]);
            } else {
                assert(s[s.len() - 1] == s.filter(p)[k]);
            }
        }
    }
}

proof fn lemma_filter_below(s: Seq<TextureEntry>, p: spec_fn(TextureEntry) -> bool, bound: u64)
    requires
        forall|i: int| 0 <= i < s.len() ==> (#[trigger] s[i]).id.0 < bound,
        forall|a: int, b: int| 0 <= a < b < s.len() ==> s[a].id != s[b].id,
    ensures
        forall|i: int| 0 <= i < s.filter(p).len() ==> (#[trigger] s.filter(p)[i]).id.0 < bound,
{
    lemma_filter_keeps_distinct(s, p);
    assert forall|i: int| 0 <= i < s.filter(p).len() implies (#[trigger] s.filter(p)[i]).id.0 < bound by {
        assert(s.contains(s.filter(p)[i]));
    }
}

} // verus!
