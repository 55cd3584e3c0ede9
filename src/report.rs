use vstd::prelude::*;

use humansize::{file_size_opts, FileSize};

use crate::rank::{rank, rank_spec};
use crate::stats::{entries_view, group_runs, size_sum, stats_from_file_desc_list, summaries_view, FileDesc, RgSrcInfo};
use crate::table::{format_table, table_text};

verus! {

/// The text that humansize gives for `n` bytes under its decimal (SI) options.
pub uninterp spec fn decimal_size(n: u64) -> Seq<char>;

/// Relies on humansize's `FileSize::file_size` for `u64` with
/// `file_size_opts::DECIMAL`: the text depends on `n` alone, and for unsigned
/// integers the call always returns `Ok`.
#[verifier::external_body]
fn size_text(n: u64) -> (r: String)
    ensures
        r@ == decimal_size(n),
{
    n.file_size(file_size_opts::DECIMAL).unwrap()
}

/// The decimal digit `d`.
pub open spec fn digit_char(d: nat) -> char {
    seq!['0', '1', '2', '3', '4', '5', '6', '7', '8', '9'][d as int]
}

/// `n` written in decimal, without leading zeros.
pub open spec fn decimal_text(n: nat) -> Seq<char>
    decreases n,
{
    if n < 10 {
        seq![digit_char(n)]
    } else {
        decimal_text(n / 10).push(digit_char(n % 10))
    }
}

/// Appends `n` in decimal to `out`.
fn push_decimal(out: &mut String, n: u32)
    ensures
        final(out)@ == old(out)@ + decimal_text(n as nat),
    decreases n,
{
    if n >= 10 {
        push_decimal(out, n / 10);
    }
    let d: usize = (n % 10) as usize;
    let digits = "0123456789";
    proof {
        reveal_strlit("0123456789");
        assert(digits@ =~= seq!['0', '1', '2', '3', '4', '5', '6', '7', '8', '9']);
    }
    out.append(digits.substring_char(d, d + 1));
    proof {
        assert(digits@.subrange(d as int, d + 1) =~= seq![digit_char(d as nat)]);
    }
}

/// The header line of a report.
pub open spec fn header_row() -> Seq<Seq<char>> {
    seq!["Name"@, "Count"@, "Average"@, "Total"@]
}

/// The report line of one summary: its name, count, average and total size.
pub open spec fn summary_row(v: (Seq<char>, nat, nat)) -> Seq<Seq<char>> {
    seq![v.0, decimal_text(v.1), decimal_size((v.2 / v.1) as u64), decimal_size(v.2 as u64)]
}

/// The rows of a report on the summaries `ranked`, in their order.
pub open spec fn report_rows(ranked: Seq<(Seq<char>, nat, nat)>) -> Seq<Seq<Seq<char>>> {
    seq![header_row()] + ranked.map_values(|v: (Seq<char>, nat, nat)| summary_row(v))
}

/// The report on the `limit` largest of `summaries`: nothing at all, not even
/// a header, when there are no summaries.
pub open spec fn report_text(summaries: Seq<(Seq<char>, nat, nat)>, limit: nat) -> Seq<char> {
    if summaries.len() == 0 {
        Seq::empty()
    } else {
        table_text(report_rows(rank_spec(summaries, limit)))
    }
}

/// Renders the `limit` largest summaries, largest first, as a table with
/// name, count, average and total size.
pub fn reg_src_list_to_string(limit: u32, collections_vec: Vec<RgSrcInfo>) -> (r: String)
    requires
        forall|k: int| 0 <= k < collections_vec@.len() ==> (#[trigger] collections_vec@[k]).wf(),
    ensures
        r@ == report_text(summaries_view(collections_vec@), limit as nat),
{
    if collections_vec.len() == 0 {
        return String::new();
    }
    let ghost orig = collections_vec@;
    let ranked = rank(collections_vec, limit);
    let ghost rv = summaries_view(ranked@);
    let mut rows: Vec<Vec<String>> = Vec::new();
    let mut header: Vec<String> = Vec::new();
    header.push(String::from_str("Name"));
    header.push(String::from_str("Count"));
    header.push(String::from_str("Average"));
    header.push(String::from_str("Total"));
    rows.push(header);
    proof {
        assert(rows@[0].deep_view() =~= header_row());
        assert(rows.deep_view() =~= seq![header_row()]);
        assert(report_rows(rv.take(0)) =~= seq![header_row()]);
    }
    let mut i: usize = 0;
    while i < ranked.len()
        invariant
            i <= ranked@.len(),
            rv == summaries_view(ranked@),
            ranked@.to_multiset().subset_of(orig.to_multiset()),
            forall|k: int| 0 <= k < orig.len() ==> (#[trigger] orig[k]).wf(),
            rows.deep_view() == report_rows(rv.take(i as int)),
        decreases ranked@.len() - i,
    {
        let s = &ranked[i];
        proof {
            let x = ranked@[i as int];
            assert(ranked@.contains(x));
            vstd::seq_lib::to_multiset_contains(ranked@, x);
            vstd::seq_lib::to_multiset_contains(orig, x);
            assert(orig.to_multiset().count(x) > 0);
            assert(orig.contains(x));
            let j = choose|j: int| 0 <= j < orig.len() && orig[j] == x;
            assert(orig[j].wf());
        }
        let mut row: Vec<String> = Vec::new();
        row.push(s.name.clone());
        let mut count = String::new();
        push_decimal(&mut count, s.counter);
        row.push(count);
        row.push(size_text(s.average_size()));
        row.push(size_text(s.total_size));
        let ghost before = rows.deep_view();
        rows.push(row);
        proof {
            assert(row.deep_view() =~= summary_row(rv[i as int]));
            assert(rows.deep_view() =~= before.push(row.deep_view()));
            assert(rv.take(i + 1) =~= rv.take(i as int).push(rv[i as int]));
            assert(report_rows(rv.take(i + 1)) =~= report_rows(rv.take(i as int)).push(summary_row(rv[i as int])));
        }
        i = i + 1;
    }
    proof {
        assert(rv.take(i as int) =~= rv);
    }
    format_table(&rows)
}


/// The heading above the report on the cache directory shown as `root`,
/// whose contents add up to `total` bytes.
pub open spec fn heading_text(root: Seq<char>, total: u64) -> Seq<char> {
    "\nSummary of: "@ + root + " ("@ + decimal_size(total) + " total)\n"@
}

/// The statistics section for the extracted sources under the cache
/// directory shown as `root_display`. A directory that does not exist gives
/// an empty section; otherwise a heading with the directory's total size is
/// followed by the report on the `limit` largest packages among the entries.
pub fn registry_source_stats(
    root_exists: bool,
    root_display: &str,
    cache_total: u64,
    limit: u32,
    file_descs: Vec<FileDesc>,
) -> (r: String)
    requires
        file_descs@.len() <= u32::MAX,
        size_sum(entries_view(file_descs@)) <= u64::MAX,
    ensures
        !root_exists ==> r@ == Seq::<char>::empty(),
        root_exists ==> r@ == heading_text(root_display@, cache_total) + report_text(
            group_runs(entries_view(file_descs@)),
            limit as nat,
        ),
{
    let mut stdout = String::new();
    if !root_exists {
        return stdout;
    }
    stdout.append("\nSummary of: ");
    stdout.append(root_display);
    stdout.append(" (");
    stdout.append(size_text(cache_total).as_str());
    stdout.append(" total)\n");
    let summary = stats_from_file_desc_list(file_descs);
    let list = reg_src_list_to_string(limit, summary);
    stdout.append(list.as_str());
    stdout
}

} // verus!
