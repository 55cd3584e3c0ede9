use vstd::prelude::*;

use crate::naming::{identity_of, identity_spec};

verus! {

/// One extracted package-version directory of the cache: where it is, the
/// logical package it belongs to, and its size on disk in bytes.
pub struct FileDesc {
    pub path: String,
    pub name: String,
    pub size: u64,
}

/// The statistics of one run of entries of the same package: its name, how
/// many entries were merged and their summed size in bytes.
pub struct RgSrcInfo {
    pub name: String,
    pub counter: u32,
    pub total_size: u64,
}

impl View for FileDesc {
    type V = (Seq<char>, nat);

    open spec fn view(&self) -> (Seq<char>, nat) {
        (self.name@, self.size as nat)
    }
}

impl View for RgSrcInfo {
    type V = (Seq<char>, nat, nat);

    open spec fn view(&self) -> (Seq<char>, nat, nat) {
        (self.name@, self.counter as nat, self.total_size as nat)
    }
}

impl FileDesc {
    /// An entry for the directory at `path` whose last path component is
    /// `file_name` and whose files add up to `size` bytes.
    pub fn new_from_reg_src(path: String, file_name: &str, size: u64) -> (r: FileDesc)
        ensures
            r.path == path,
            r.name@ == identity_spec(file_name@),
            r.size == size,
    {
        let name = identity_of(file_name);
        FileDesc { path, name, size }
    }
}

impl RgSrcInfo {
    /// A summary of `counter` entries of package `name` that add up to
    /// `total_size` bytes.
    pub fn new(name: String, counter: u32, total_size: u64) -> (r: RgSrcInfo)
        ensures
            r.name == name,
            r.counter == counter,
            r.total_size == total_size,
    {
        RgSrcInfo { name, counter, total_size }
    }

    /// A summary is well formed when it stands for at least one entry.
    pub open spec fn wf(&self) -> bool {
        self.counter > 0
    }

    /// The average size of the merged entries, rounded down.
    pub open spec fn average_spec(&self) -> nat
        recommends
            self.wf(),
    {
        (self.total_size / self.counter as u64) as nat
    }

    pub fn average_size(&self) -> (r: u64)
        requires
            self.wf(),
        ensures
            r == self.total_size / (self.counter as u64),
            r as nat == self.average_spec(),
    {
        self.total_size / (self.counter as u64)
    }
}

/// The entries' (name, size) pairs, in order.
pub open spec fn entries_view(files: Seq<FileDesc>) -> Seq<(Seq<char>, nat)> {
    files.map_values(|f: FileDesc| f@)
}

/// The summaries' (name, count, total) triples, in order.
pub open spec fn summaries_view(infos: Seq<RgSrcInfo>) -> Seq<(Seq<char>, nat, nat)> {
    infos.map_values(|s: RgSrcInfo| s@)
}

/// Run-length grouping: each maximal run of consecutive entries with the same
/// name becomes one (name, count, total) triple, in the order of the runs.
/// Entries of one name that are not adjacent make separate triples.
pub open spec fn group_runs(entries: Seq<(Seq<char>, nat)>) -> Seq<(Seq<char>, nat, nat)>
    decreases entries.len(),
{
    if entries.len() == 0 {
        Seq::empty()
    } else {
        let prev = group_runs(entries.drop_last());
        let e = entries.last();
        if entries.len() > 1 && entries[entries.len() - 2].0 == e.0 {
            let run = prev.last();
            prev.update(prev.len() - 1, (e.0, run.1 + 1, run.2 + e.1))
        } else {
            prev.push((e.0, 1nat, e.1))
        }
    }
}

/// The summed sizes of a sequence of entries.
pub open spec fn size_sum(entries: Seq<(Seq<char>, nat)>) -> nat
    decreases entries.len(),
{
    if entries.len() == 0 {
        0
    } else {
        size_sum(entries.drop_last()) + entries.last().1
    }
}

/// The summed totals of a sequence of summaries.
pub open spec fn total_sum(infos: Seq<(Seq<char>, nat, nat)>) -> nat
    decreases infos.len(),
{
    if infos.len() == 0 {
        0
    } else {
        total_sum(infos.drop_last()) + infos.last().2
    }
}

/// The summed occurrence counts of a sequence of summaries.
pub open spec fn count_sum(infos: Seq<(Seq<char>, nat, nat)>) -> nat
    decreases infos.len(),
{
    if infos.len() == 0 {
        0
    } else {
        count_sum(infos.drop_last()) + infos.last().1
    }
}


proof fn lemma_size_sum_prefix(entries: Seq<(Seq<char>, nat)>, i: int)
    requires
        0 <= i <= entries.len(),
    ensures
        size_sum(entries.take(i)) <= size_sum(entries),
    decreases entries.len(),
{
    if i < entries.len() {
        assert(entries.drop_last().take(i) =~= entries.take(i));
        lemma_size_sum_prefix(entries.drop_last(), i);
    } else {
        assert(entries.take(i) =~= entries);
    }
}

/// Facts of the grouping of `entries` that the aggregation loop relies on.
proof fn lemma_group_runs_shape(entries: Seq<(Seq<char>, nat)>)
    ensures
        group_runs(entries).len() == 0 <==> entries.len() == 0,
        group_runs(entries).len() <= entries.len(),
        entries.len() > 0 ==> group_runs(entries).last().0 == entries.last().0,
        entries.len() > 0 ==> group_runs(entries).last().1 <= entries.len(),
        entries.len() > 0 ==> group_runs(entries).last().2 <= size_sum(entries),
        forall|k: int| 0 <= k < group_runs(entries).len() ==> #[trigger] group_runs(entries)[k].1 >= 1,
    decreases entries.len(),
{
    if entries.len() > 0 {
        lemma_group_runs_shape(entries.drop_last());
    }
}

proof fn lemma_runs_conserve(entries: Seq<(Seq<char>, nat)>)
    ensures
        total_sum(group_runs(entries)) == size_sum(entries),
        count_sum(group_runs(entries)) == entries.len(),
    decreases entries.len(),
{
    if entries.len() > 0 {
        let prev = group_runs(entries.drop_last());
        lemma_runs_conserve(entries.drop_last());
        lemma_group_runs_shape(entries.drop_last());
        if entries.len() > 1 && entries[entries.len() - 2].0 == entries.last().0 {
            let run = prev.last();
            let upd = prev.update(prev.len() - 1, (entries.last().0, run.1 + 1, run.2 + entries.last().1));
            assert(upd.drop_last() =~= prev.drop_last());
        } else {
            assert(prev.push((entries.last().0, 1nat, entries.last().1)).drop_last() =~= prev);
        }
    }
}

/// Aggregation keeps the total size and the number of entries: the
/// summaries' totals add up to the entries' sizes, and their occurrence
/// counts to the number of entries.
pub proof fn lemma_conservation(file_descs: Seq<FileDesc>)
    ensures
        total_sum(group_runs(entries_view(file_descs))) == size_sum(entries_view(file_descs)),
        count_sum(group_runs(entries_view(file_descs))) == file_descs.len(),
{
    lemma_runs_conserve(entries_view(file_descs));
}

/// Merges each run of adjacent entries with the same name into one summary,
/// in a single pass and in the order of the entries.
pub fn stats_from_file_desc_list(file_descs: Vec<FileDesc>) -> (r: Vec<RgSrcInfo>)
    requires
        file_descs@.len() <= u32::MAX,
        size_sum(entries_view(file_descs@)) <= u64::MAX,
    ensures
        summaries_view(r@) == group_runs(entries_view(file_descs@)),
        forall|k: int| 0 <= k < r@.len() ==> (#[trigger] r@[k]).wf(),
{
    let ghost ev = entries_view(file_descs@);
    let n = file_descs.len();
    let mut out: Vec<RgSrcInfo> = Vec::new();
    let mut cur: Option<RgSrcInfo> = None;
    let mut i: usize = 0;
    while i < n
        invariant
            n == file_descs@.len(),
            n <= u32::MAX,
            ev == entries_view(file_descs@),
            size_sum(ev) <= u64::MAX,
            i <= n,
            i == 0 ==> cur is None && out@.len() == 0,
            i > 0 ==> cur is Some,
            i > 0 ==> summaries_view(out@.push(cur->0)) == group_runs(ev.take(i as int)),
            i > 0 ==> cur->0.total_size <= size_sum(ev.take(i as int)),
            i > 0 ==> cur->0.counter <= i,
            i > 0 ==> cur->0.name@ == ev[i - 1].0,
        decreases n - i,
    {
        let f = &file_descs[i];
        let ghost pre = ev.take(i as int);
        let ghost post = ev.take(i + 1);
        proof {
            assert(post.drop_last() =~= pre);
            assert(post.last() == ev[i as int]);
            lemma_size_sum_prefix(ev, i + 1);
            if i > 0 {
                assert(post[i - 1] == ev[i - 1]);
                lemma_group_runs_shape(pre);
            }
        }
        let next = match cur {
            None => RgSrcInfo::new(f.name.clone(), 1, f.size),
            Some(c) => {
                if c.name == f.name {
                    proof {
                        let prev = group_runs(pre);
                        assert(summaries_view(out@.push(c)).drop_last() =~= summaries_view(out@));
                        assert(summaries_view(out@.push(RgSrcInfo { name: c.name, counter: (c.counter + 1) as u32, total_size: (c.total_size + f.size) as u64 }))
                            =~= prev.update(prev.len() - 1, (ev[i as int].0, prev.last().1 + 1, prev.last().2 + ev[i as int].1)));
                    }
                    RgSrcInfo::new(c.name, c.counter + 1, c.total_size + f.size)
                } else {
                    out.push(c);
                    RgSrcInfo::new(f.name.clone(), 1, f.size)
                }
            },
        };
        proof {
            assert(summaries_view(out@.push(next)) =~= summaries_view(out@).push(next@));
        }
        cur = Some(next);
        i = i + 1;
    }
    proof {
        lemma_group_runs_shape(ev);
        assert(ev.take(n as int) =~= ev);
    }
    if let Some(c) = cur {
        out.push(c);
    }
    proof {
        if n == 0 {
            assert(summaries_view(out@) =~= group_runs(ev));
        }
        assert forall|k: int| 0 <= k < out@.len() implies (#[trigger] out@[k]).wf() by {
            assert(summaries_view(out@)[k] == out@[k]@);
            assert(group_runs(ev)[k].1 >= 1);
        }
    }
    out
}

} // verus!
