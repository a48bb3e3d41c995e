//! What the daemon knows of each output, and the grouping of a command's
//! outputs by size.
use vstd::prelude::*;

verus! {

/// A live output as the compositor describes it.
pub struct MonitorMeta {
    pub name: String,
    pub width: i32,
    pub height: i32,
}

/// Outputs of one size, which one transition serves together.
pub struct SizeGroup {
    pub width: i32,
    pub height: i32,
    pub monitors: Vec<String>,
}

impl SizeGroup {
    /// The names of the group's outputs.
    pub open spec fn names(&self) -> Seq<Seq<char>> {
        self.monitors@.map_values(|s: String| s@)
    }
}

/// A group as the contracts see it: width, height and output names.
pub type GroupView = (i32, i32, Seq<Seq<char>>);

pub open spec fn groups_view(groups: Seq<SizeGroup>) -> Seq<GroupView> {
    groups.map_values(|g: SizeGroup| (g.width, g.height, g.names()))
}

pub open spec fn names_of(list: Seq<String>) -> Seq<Seq<char>> {
    list.map_values(|s: String| s@)
}

/// The size of the first output called `name`, if there is one.
pub open spec fn size_of(metas: Seq<MonitorMeta>, name: Seq<char>) -> Option<(i32, i32)>
    decreases metas.len(),
{
    if metas.len() == 0 {
        None
    } else if metas[0].name@ == name {
        Some((metas[0].width, metas[0].height))
    } else {
        size_of(metas.drop_first(), name)
    }
}

/// Whether some group holds `name`.
pub open spec fn grouped(g: Seq<GroupView>, name: Seq<char>) -> bool {
    exists|k: int, i: int| 0 <= k < g.len() && 0 <= i < g[k].2.len() && g[k].2[i] == name
}

/// Whether some group has size `size`.
pub open spec fn has_key(g: Seq<GroupView>, size: (i32, i32)) -> bool {
    exists|k: int| 0 <= k < g.len() && (g[k].0, g[k].1) == size
}

/// Adds `name`, of size `size`, to the group of that size, or to a new group
/// at the end; a name already grouped is left where it is.
pub open spec fn add_to_groups(g: Seq<GroupView>, name: Seq<char>, size: (i32, i32)) -> Seq<
    GroupView,
> {
    if grouped(g, name) {
        g
    } else if has_key(g, size) {
        let k = choose|k: int| 0 <= k < g.len() && (g[k].0, g[k].1) == size;
        g.update(k, (g[k].0, g[k].1, g[k].2.push(name)))
    } else {
        g.push((size.0, size.1, seq![name]))
    }
}

/// The outputs `names` grouped by their size in `metas`, groups in the order
/// in which their size first appears, names in the order given; unknown
/// names are left out.
pub open spec fn partition(names: Seq<Seq<char>>, metas: Seq<MonitorMeta>) -> Seq<GroupView>
    decreases names.len(),
{
    if names.len() == 0 {
        Seq::empty()
    } else {
        let g = partition(names.drop_last(), metas);
        match size_of(metas, names.last()) {
            None => g,
            Some(size) => add_to_groups(g, names.last(), size),
        }
    }
}

/// Groups are non-empty, sizes are unique and no name is in two places.
pub open spec fn groups_wf(g: Seq<GroupView>) -> bool {
    &&& forall|k: int| 0 <= k < g.len() ==> (#[trigger] g[k]).2.len() > 0
    &&& forall|k1: int, k2: int|
        0 <= k1 < g.len() && 0 <= k2 < g.len() && k1 != k2 ==> (#[trigger] g[k1].0, g[k1].1) != (
        #[trigger] g[k2].0,
        g[k2].1,
    )
    &&& forall|k1: int, i1: int, k2: int, i2: int|
        0 <= k1 < g.len() && 0 <= k2 < g.len() && 0 <= i1 < g[k1].2.len() && 0 <= i2 < g[k2].2.len()
            && (k1 != k2 || i1 != i2) ==> #[trigger] g[k1].2[i1] != #[trigger] g[k2].2[i2]
}

/// Grouping by size is sound and complete: every grouped output has its
/// group's size, and every named output whose size is known is grouped.
/// Outputs of one size thus share one transition, and outputs of different
/// sizes get one each.
pub proof fn lemma_partition_by_size(names: Seq<Seq<char>>, metas: Seq<MonitorMeta>)
    ensures
        forall|k: int, i: int|
            0 <= k < partition(names, metas).len() && 0 <= i < partition(names, metas)[k].2.len()
                ==> size_of(metas, #[trigger] partition(names, metas)[k].2[i]) == Some(
                (partition(names, metas)[k].0, partition(names, metas)[k].1),
            ),
        forall|j: int|
            0 <= j < names.len() && (#[trigger] size_of(metas, names[j])) is Some ==> grouped(
                partition(names, metas),
                names[j],
            ),
    decreases names.len(),
{
    if names.len() > 0 {
        let rest = names.drop_last();
        lemma_partition_by_size(rest, metas);
        let g = partition(rest, metas);
        let last = names.last();
        match size_of(metas, last) {
            None => {
                assert forall|j: int|
                    0 <= j < names.len() && (#[trigger] size_of(metas, names[j])) is Some implies grouped(
                    partition(names, metas),
                    names[j],
                ) by {
                    assert(j < names.len() - 1);
                    assert(rest[j] == names[j]);
                }
            },
            Some(size) => {
                let r = add_to_groups(g, last, size);
                assert(partition(names, metas) == r);
                if grouped(g, last) {
                } else if has_key(g, size) {
                    let c = choose|c: int| 0 <= c < g.len() && (g[c].0, g[c].1) == size;
                    assert forall|k: int, i: int| 0 <= k < r.len() && 0 <= i < r[k].2.len() implies size_of(
                        metas,
                        #[trigger] r[k].2[i],
                    ) == Some((r[k].0, r[k].1)) by {
                        if k != c || i < g[k].2.len() {
                            assert(r[k].2[i] == g[k].2[i]);
                        }
                    }
                    assert(r[c].2[g[c].2.len() as int] == last);
                } else {
                    assert forall|k: int, i: int| 0 <= k < r.len() && 0 <= i < r[k].2.len() implies size_of(
                        metas,
                        #[trigger] r[k].2[i],
                    ) == Some((r[k].0, r[k].1)) by {
                        if k < g.len() {
                            assert(r[k] == g[k]);
                        }
                    }
                    assert(r[g.len() as int].2[0] == last);
                }
                assert forall|j: int|
                    0 <= j < names.len() && (#[trigger] size_of(metas, names[j])) is Some implies grouped(
                    r,
                    names[j],
                ) by {
                    if j < names.len() - 1 {
                        assert(rest[j] == names[j]);
                        let (k, i) = choose|k: int, i: int|
                            0 <= k < g.len() && 0 <= i < g[k].2.len() && g[k].2[i] == names[j];
                        if grouped(g, last) {
                        } else if has_key(g, size) {
                            assert(r[k].2[i] == g[k].2[i]);
                        } else {
                            assert(r[k] == g[k]);
                        }
                    } else if grouped(g, last) {
                    } else if has_key(g, size) {
                        let c = choose|c: int| 0 <= c < g.len() && (g[c].0, g[c].1) == size;
                        assert(r[c].2[g[c].2.len() as int] == last);
                    } else {
                        assert(r[g.len() as int].2[0] == last);
                    }
                }
            },
        }
    }
}

/// Looks up the size of the output called `name`.
pub fn monitor_size(metas: &Vec<MonitorMeta>, name: &String) -> (r: Option<(i32, i32)>)
    ensures
        r == size_of(metas@, name@),
{
    let mut k: usize = 0;
    assert(metas@.subrange(0, metas@.len() as int) =~= metas@);
    while k < metas.len()
        invariant
            k <= metas.len(),
            size_of(metas@, name@) == size_of(metas@.subrange(k as int, metas@.len() as int), name@),
        decreases metas.len() - k,
    {
        let ghost rest = metas@.subrange(k as int, metas@.len() as int);
        assert(rest.drop_first() =~= metas@.subrange(k + 1, metas@.len() as int));
        if metas[k].name == *name {
            return Some((metas[k].width, metas[k].height));
        }
        k = k + 1;
    }
    assert(metas@.subrange(k as int, metas@.len() as int).len() == 0);
    None
}

fn find_name(groups: &Vec<SizeGroup>, name: &String) -> (r: bool)
    ensures
        r == grouped(groups_view(groups@), name@),
{
    let ghost g = groups_view(groups@);
    let mut k: usize = 0;
    while k < groups.len()
        invariant
            k <= groups.len(),
            g == groups_view(groups@),
            forall|k2: int, i2: int|
                0 <= k2 < k && 0 <= i2 < g[k2].2.len() ==> g[k2].2[i2] != name@,
        decreases groups.len() - k,
    {
        let list = &groups[k].monitors;
        let mut i: usize = 0;
        while i < list.len()
            invariant
                k < groups.len(),
                g == groups_view(groups@),
                list == groups@[k as int].monitors,
                i <= list.len(),
                forall|k2: int, i2: int|
                    0 <= k2 < k && 0 <= i2 < g[k2].2.len() ==> g[k2].2[i2] != name@,
                forall|i2: int| 0 <= i2 < i ==> g[k as int].2[i2] != name@,
            decreases list.len() - i,
        {
            if list[i] == *name {
                assert(g[k as int].2[i as int] == name@);
                return true;
            }
            i = i + 1;
        }
        k = k + 1;
    }
    false
}

fn find_size(groups: &Vec<SizeGroup>, width: i32, height: i32) -> (r: Option<usize>)
    ensures
        match r {
            Some(k) => k < groups@.len() && groups@[k as int].width == width && groups@[k as int].height
                == height,
            None => !has_key(groups_view(groups@), (width, height)),
        },
{
    let mut k: usize = 0;
    while k < groups.len()
        invariant
            k <= groups.len(),
            forall|k2: int|
                0 <= k2 < k ==> (groups@[k2].width, groups@[k2].height) != (width, height),
        decreases groups.len() - k,
    {
        if groups[k].width == width && groups[k].height == height {
            return Some(k);
        }
        k = k + 1;
    }
    None
}

proof fn lemma_add_to_groups(g: Seq<GroupView>, name: Seq<char>, size: (i32, i32))
    requires
        groups_wf(g),
    ensures
        groups_wf(add_to_groups(g, name, size)),
{
    let r = add_to_groups(g, name, size);
    if grouped(g, name) {
    } else if has_key(g, size) {
        let k = choose|k: int| 0 <= k < g.len() && (g[k].0, g[k].1) == size;
        assert forall|k1: int, i1: int, k2: int, i2: int|
            0 <= k1 < r.len() && 0 <= k2 < r.len() && 0 <= i1 < r[k1].2.len() && 0 <= i2
                < r[k2].2.len() && (k1 != k2 || i1 != i2) implies #[trigger] r[k1].2[i1]
            != #[trigger] r[k2].2[i2] by {
            if k1 == k && i1 == g[k].2.len() {
                assert(!(0 <= k2 < g.len() && 0 <= i2 < g[k2].2.len() && g[k2].2[i2] == name));
            } else if k2 == k && i2 == g[k].2.len() {
                assert(!(0 <= k1 < g.len() && 0 <= i1 < g[k1].2.len() && g[k1].2[i1] == name));
            } else {
                assert(r[k1].2[i1] == g[k1].2[i1]);
                assert(r[k2].2[i2] == g[k2].2[i2]);
            }
        }
        assert forall|k1: int| 0 <= k1 < r.len() implies (#[trigger] r[k1]).2.len() > 0 by {
            assert(g[k1].2.len() > 0);
        }
        assert forall|k1: int, k2: int|
            0 <= k1 < r.len() && 0 <= k2 < r.len() && k1 != k2 implies (#[trigger] r[k1].0, r[k1].1)
            != (#[trigger] r[k2].0, r[k2].1) by {
            assert((g[k1].0, g[k1].1) != (g[k2].0, g[k2].1));
        }
    } else {
        assert forall|k1: int, i1: int, k2: int, i2: int|
            0 <= k1 < r.len() && 0 <= k2 < r.len() && 0 <= i1 < r[k1].2.len() && 0 <= i2
                < r[k2].2.len() && (k1 != k2 || i1 != i2) implies #[trigger] r[k1].2[i1]
            != #[trigger] r[k2].2[i2] by {
            if k1 == g.len() {
                assert(!(0 <= k2 < g.len() && 0 <= i2 < g[k2].2.len() && g[k2].2[i2] == name));
            } else if k2 == g.len() {
                assert(!(0 <= k1 < g.len() && 0 <= i1 < g[k1].2.len() && g[k1].2[i1] == name));
            } else {
                assert(r[k1] == g[k1] && r[k2] == g[k2]);
            }
        }
        assert forall|k1: int| 0 <= k1 < r.len() implies (#[trigger] r[k1]).2.len() > 0 by {
            if k1 < g.len() {
                assert(r[k1] == g[k1]);
            }
        }
        assert forall|k1: int, k2: int|
            0 <= k1 < r.len() && 0 <= k2 < r.len() && k1 != k2 implies (#[trigger] r[k1].0, r[k1].1)
            != (#[trigger] r[k2].0, r[k2].1) by {
            if k1 == g.len() {
                assert(!(0 <= k2 < g.len() && (g[k2].0, g[k2].1) == size));
            } else if k2 == g.len() {
                assert(!(0 <= k1 < g.len() && (g[k1].0, g[k1].1) == size));
            } else {
                assert(r[k1] == g[k1] && r[k2] == g[k2]);
            }
        }
    }
}

/// Groups the outputs named in `monitors` by their size in `metas`: one group
/// per size, in the order in which sizes first appear; each name once, in the
/// order given; names that `metas` does not know are left out.
pub fn partition_by_size(monitors: &Vec<String>, metas: &Vec<MonitorMeta>) -> (r: Vec<SizeGroup>)
    ensures
        groups_view(r@) == partition(names_of(monitors@), metas@),
        groups_wf(groups_view(r@)),
        forall|k: int| 0 <= k < r@.len() ==> (#[trigger] r@[k]).names().no_duplicates(),
{
    let ghost names = names_of(monitors@);
    let mut groups: Vec<SizeGroup> = Vec::new();
    let mut j: usize = 0;
    assert(groups_view(groups@) =~= Seq::<GroupView>::empty());
    while j < monitors.len()
        invariant
            j <= monitors.len(),
            names == names_of(monitors@),
            groups_view(groups@) == partition(names.take(j as int), metas@),
            groups_wf(groups_view(groups@)),
        decreases monitors.len() - j,
    {
        let ghost before = groups_view(groups@);
        let name = &monitors[j];
        proof {
            assert(names.take(j + 1).drop_last() =~= names.take(j as int));
            assert(names.take(j + 1).last() == name@);
        }
        match monitor_size(metas, name) {
            None => {},
            Some((w, h)) => {
                proof {
                    lemma_add_to_groups(before, name@, (w, h));
                }
                if !find_name(&groups, name) {
                    match find_size(&groups, w, h) {
                        Some(k) => {
                            let ghost old_groups = groups@;
                            let mut g = groups.remove(k);
                            g.monitors.push(name.clone());
                            let ghost new_g = g;
                            groups.insert(k, g);
                            proof {
                                assert(groups@ =~= old_groups.update(k as int, new_g));
                                assert(new_g.names() =~= before[k as int].2.push(name@));
                                assert(has_key(before, (w, h)));
                                assert(!grouped(before, name@));
                                assert(0 <= k < before.len() && (before[k as int].0, before[k as int].1)
                                    == (w, h));
                                let c = choose|c: int|
                                    0 <= c < before.len() && (before[c].0, before[c].1) == (w, h);
                                assert(c == k);
                                assert(groups_view(groups@) =~= add_to_groups(before, name@, (w, h)));
                            }
                        },
                        None => {
                            let g = SizeGroup { width: w, height: h, monitors: vec![name.clone()] };
                            groups.push(g);
                            proof {
                                assert(g.names() =~= seq![name@]);
                                assert(groups_view(groups@) =~= add_to_groups(before, name@, (w, h)));
                            }
                        },
                    }
                }
            },
        }
        j = j + 1;
    }
    proof {
        assert(names.take(j as int) =~= names);
        let g = groups_view(groups@);
        assert forall|k: int| 0 <= k < groups@.len() implies (#[trigger] groups@[k]).names().no_duplicates() by {
            assert forall|a: int, b: int|
                0 <= a < groups@[k].names().len() && 0 <= b < groups@[k].names().len() && a != b implies
                groups@[k].names()[a] != groups@[k].names()[b] by {
                assert(g[k].2[a] != g[k].2[b]);
            }
        }
    }
    groups
}

} // verus!
