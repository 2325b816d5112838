//! The files that masters of instruments are kept in.
use crate::adapters::universe::ended_lines;
use crate::binary64::{number_in, Decimal};
use crate::feeder::catalog::{
    cells_of, column_of, csv_cells_of, csv_row_of, flag_of, flag_text, inked_lines_of,
    kind_name_reads_back, listed_of, row_of, rows_of, InstrumentFacts,
    UNIVERSAL_INSTRUMENT_CSV_HEADER,
};
use crate::feeder::error::FeedFault;
use crate::text::{
    count_said_lines, ending_is_said, join_of, lines_of, said_lines, split_of, split_of_join,
    split_of_more, trim_keeps, trim_of,
};
use vstd::prelude::*;

verus! {

/// How many instruments a file has: its lines that say something, but for the columns.
pub fn count_csv_instruments(content: &str) -> (r: usize)
    ensures
        r == if said_lines(lines_of(content@)) > 0 {
            said_lines(lines_of(content@)) - 1
        } else {
            0
        },
{
    let n: usize = count_said_lines(content);
    if n > 0 {
        n - 1
    } else {
        0
    }
}

/// Whether the master need not be fetched on a day, counted from 1970-01-01. `modified` is
/// the second at which its file was written, where there is one.
pub fn is_fresh_for_epoch_day(modified: Option<u64>, today_epoch_day: u64) -> (r: bool)
    ensures
        r == (modified matches Some(m) && m / 86_400 >= today_epoch_day),
{
    match modified {
        Some(m) => m / 86_400 >= today_epoch_day,
        None => false,
    }
}

/// Whether a text stands in a cell of a file as it is.
pub open spec fn is_plain(text: Seq<char>) -> bool {
    &&& trim_of(text) == text
    &&& forall|k: int| 0 <= k < text.len() ==> text[k] != ',' && text[k] != '\n'
}

/// Whether an instrument can be told by a line of a file: its texts stand in cells as they
/// are, and its numbers are known by theirs.
pub open spec fn can_be_listed(i: InstrumentFacts, numbers: Map<Seq<char>, Decimal>) -> bool {
    &&& forall|k: int| 0 <= k < 13 ==> is_plain(#[trigger] csv_cells_of(i)[k])
    &&& i.expiry matches Some(expiry) ==> expiry.len() > 0
    &&& i.strike matches Some(strike) ==> strike.text.len() > 0 && number_in(numbers, strike.text)
        == Some(strike)
    &&& number_in(numbers, i.lot_size.text) == Some(i.lot_size)
    &&& number_in(numbers, i.tick_size.text) == Some(i.tick_size)
}

/// What a file that lists instruments holds.
pub open spec fn listing_of(list: Seq<InstrumentFacts>) -> Seq<char> {
    UNIVERSAL_INSTRUMENT_CSV_HEADER@ + "\n"@ + ended_lines(
        Seq::new(list.len(), |k: int| csv_row_of(list[k])),
    )
}

/// The names of the columns of a file of instruments.
spec fn columns() -> Seq<Seq<char>> {
    seq![
        "instrument_name"@,
        "instrument_type"@,
        "strike"@,
        "expiry"@,
        "broker"@,
        "instrument_token"@,
        "trading_symbol"@,
        "exchange"@,
        "segment"@,
        "underlying"@,
        "lot_size"@,
        "tick_size"@,
        "tradable"@,
    ]
}

proof fn column_names()
    ensures
        forall|i: int, k: int|
            0 <= i < 13 && 0 <= k < columns()[i].len() ==> (#[trigger] columns()[i][k]) != ',' && columns()[i][k]
                != '\n',
        forall|i: int| 0 <= i < 13 ==> trim_of(#[trigger] columns()[i]) == columns()[i],
        join_of(columns(), seq![',']) == UNIVERSAL_INSTRUMENT_CSV_HEADER@,
{
    reveal_strlit("instrument_name");
    reveal_strlit("instrument_type");
    reveal_strlit("strike");
    reveal_strlit("expiry");
    reveal_strlit("broker");
    reveal_strlit("instrument_token");
    reveal_strlit("trading_symbol");
    reveal_strlit("exchange");
    reveal_strlit("segment");
    reveal_strlit("underlying");
    reveal_strlit("lot_size");
    reveal_strlit("tick_size");
    reveal_strlit("tradable");
    reveal_strlit("instrument_name,instrument_type,strike,expiry,broker,instrument_token,trading_symbol,exchange,segment,underlying,lot_size,tick_size,tradable");
    assert forall|i: int| 0 <= i < 13 implies trim_of(#[trigger] columns()[i]) == columns()[i] by {
        trim_keeps(columns()[i]);
    }
    reveal_with_fuel(join_of, 14);
    assert(join_of(columns(), seq![',']) =~= UNIVERSAL_INSTRUMENT_CSV_HEADER@);
}

proof fn columns_are_distinct(i: int)
    requires
        0 <= i < 13,
    ensures
        column_of(columns(), columns()[i]) == i,
{
    reveal_strlit("instrument_name");
    reveal_strlit("instrument_type");
    reveal_strlit("strike");
    reveal_strlit("expiry");
    reveal_strlit("broker");
    reveal_strlit("instrument_token");
    reveal_strlit("trading_symbol");
    reveal_strlit("exchange");
    reveal_strlit("segment");
    reveal_strlit("underlying");
    reveal_strlit("lot_size");
    reveal_strlit("tick_size");
    reveal_strlit("tradable");
    let c = columns();
    assert(c[0][11] != c[1][11]);
    assert(c[2][0] != c[3][0] && c[2][0] != c[4][0] && c[3][0] != c[4][0]);
    assert(c[7][0] != c[10][0] && c[7][0] != c[12][0] && c[10][0] != c[12][0]);
    assert forall|a: int, b: int| 0 <= a < b < 13 implies #[trigger] c[a] != #[trigger] c[b] by {
        assert(c[a] == c[b] ==> c[a].len() == c[b].len());
    }
    column_found(c, i);
}

proof fn column_found(headers: Seq<Seq<char>>, i: int)
    requires
        0 <= i < headers.len(),
        forall|a: int, b: int|
            0 <= a < b < headers.len() ==> #[trigger] headers[a] != #[trigger] headers[b],
    ensures
        column_of(headers, headers[i]) == i,
    decreases headers.len(),
{
    if i > 0 {
        let rest = headers.skip(1);
        assert(rest[i - 1] == headers[i]);
        assert(headers[0] != headers[i]);
        assert forall|a: int, b: int| 0 <= a < b < rest.len() implies #[trigger] rest[a]
            != #[trigger] rest[b] by {
            assert(headers[a + 1] != headers[b + 1]);
        }
        column_found(rest, i - 1);
    }
}

/// The cells of the line of an instrument are those that were written.
proof fn cells_read_back(i: InstrumentFacts, numbers: Map<Seq<char>, Decimal>)
    requires
        can_be_listed(i, numbers),
    ensures
        cells_of(csv_row_of(i)) == csv_cells_of(i),
{
    let parts = csv_cells_of(i);
    reveal_strlit(",");
    assert(","@ =~= seq![',']);
    assert forall|a: int, k: int|
        0 <= a < parts.len() && 0 <= k < parts[a].len() implies (#[trigger] parts[a][k]) != ',' by {
        assert(is_plain(csv_cells_of(i)[a]));
    }
    split_of_join(parts, ',');
    assert(cells_of(csv_row_of(i)) =~= parts) by {
        assert forall|a: int| 0 <= a < parts.len() implies trim_of(#[trigger] parts[a])
            == parts[a] by {
            assert(is_plain(csv_cells_of(i)[a]));
        }
    }
}

proof fn row_reads_back(i: InstrumentFacts, numbers: Map<Seq<char>, Decimal>)
    requires
        can_be_listed(i, numbers),
    ensures
        row_of(columns(), csv_cells_of(i), numbers, "missing csv column "@) == Ok::<
            InstrumentFacts,
            FeedFault,
        >(i),
{
    assert forall|a: int| 0 <= a < 13 implies column_of(columns(), #[trigger] columns()[a]) == a by {
        columns_are_distinct(a);
    }
    let c = columns();
    assert(c[0] == "instrument_name"@ && c[1] == "instrument_type"@ && c[2] == "strike"@ && c[3]
        == "expiry"@ && c[4] == "broker"@ && c[5] == "instrument_token"@ && c[6]
        == "trading_symbol"@ && c[7] == "exchange"@ && c[8] == "segment"@ && c[9] == "underlying"@
        && c[10] == "lot_size"@ && c[11] == "tick_size"@ && c[12] == "tradable"@);
    kind_name_reads_back(i.instrument_type);
    reveal_strlit("true");
    reveal_strlit("false");
    assert(flag_of(flag_text(i.tradable)) == Ok::<bool, FeedFault>(i.tradable));
    assert(i.expiry matches Some(e) ==> e =~= csv_cells_of(i)[3]);
}

/// The parts of a file of lines between their ends.
proof fn lines_come_apart(first: Seq<char>, rows: Seq<Seq<char>>)
    requires
        forall|k: int| 0 <= k < first.len() ==> first[k] != '\n',
        forall|i: int, k: int|
            0 <= i < rows.len() && 0 <= k < rows[i].len() ==> (#[trigger] rows[i][k]) != '\n',
    ensures
        split_of(first + seq!['\n'] + ended_lines(rows), '\n') == (seq![first] + rows).push(
            Seq::empty(),
        ),
    decreases rows.len(),
{
    let start = first + seq!['\n'];
    if rows.len() == 0 {
        split_of_more(Seq::empty(), '\n', first);
        assert(Seq::<char>::empty() + first =~= first);
        assert(start.drop_last() =~= first);
        assert(start + ended_lines(rows) =~= start);
        assert(split_of(start, '\n') =~= (seq![first] + rows).push(Seq::empty()));
    } else {
        let rest = rows.drop_last();
        assert forall|i: int, k: int|
            0 <= i < rest.len() && 0 <= k < rest[i].len() implies (#[trigger] rest[i][k])
            != '\n' by {
            assert(rows[i][k] != '\n');
        }
        lines_come_apart(first, rest);
        reveal_strlit("\n");
        assert("\n"@ =~= seq!['\n']);
        let before = start + ended_lines(rest);
        let last = rows.last();
        assert forall|k: int| 0 <= k < last.len() implies last[k] != '\n' by {
            assert(rows[rows.len() - 1][k] != '\n');
        }
        split_of_more(before, '\n', last);
        assert(start + ended_lines(rows) =~= (before + last).push('\n'));
        assert((before + last).push('\n').drop_last() =~= before + last);
        assert(Seq::<char>::empty() + last =~= last);
        assert(split_of(before + last, '\n') =~= seq![first] + rows);
        assert(split_of(start + ended_lines(rows), '\n') =~= (seq![first] + rows).push(
            Seq::empty(),
        ));
    }
}

proof fn all_are_kept(lines: Seq<Seq<char>>)
    requires
        forall|k: int| 0 <= k < lines.len() ==> trim_of(#[trigger] lines[k]).len() > 0,
    ensures
        lines.filter(|line: Seq<char>| trim_of(line).len() > 0) == lines,
    decreases lines.len(),
{
    reveal(Seq::filter);
    if lines.len() > 0 {
        assert forall|k: int| 0 <= k < lines.drop_last().len() implies trim_of(
            #[trigger] lines.drop_last()[k],
        ).len() > 0 by {
            assert(lines[k] == lines.drop_last()[k]);
        }
        all_are_kept(lines.drop_last());
        assert(lines.drop_last().push(lines.last()) =~= lines);
    }
}

/// The line of an instrument stands in a file as it is.
proof fn row_is_line(i: InstrumentFacts, numbers: Map<Seq<char>, Decimal>)
    requires
        can_be_listed(i, numbers),
    ensures
        csv_row_of(i).len() > 0,
        csv_row_of(i).last() == 'e',
        forall|k: int| 0 <= k < csv_row_of(i).len() ==> csv_row_of(i)[k] != '\n',
{
    reveal_strlit(",");
    reveal_strlit("true");
    reveal_strlit("false");
    let parts = csv_cells_of(i);
    assert(parts.last() == flag_text(i.tradable));
    assert forall|a: int, k: int|
        0 <= a < parts.len() && 0 <= k < parts[a].len() implies (#[trigger] parts[a][k])
        != '\n' by {
        assert(is_plain(csv_cells_of(i)[a]));
    }
    join_has_no_end(parts);
}

proof fn join_has_no_end(parts: Seq<Seq<char>>)
    requires
        forall|a: int, k: int|
            0 <= a < parts.len() && 0 <= k < parts[a].len() ==> (#[trigger] parts[a][k]) != '\n',
    ensures
        forall|k: int|
            0 <= k < join_of(parts, ","@).len() ==> (#[trigger] join_of(parts, ","@)[k]) != '\n',
    decreases parts.len(),
{
    reveal_strlit(",");
    if parts.len() == 1 {
        assert forall|k: int| 0 <= k < join_of(parts, ","@).len() implies (#[trigger] join_of(
            parts,
            ","@,
        )[k]) != '\n' by {
            assert(parts[0][k] != '\n');
        }
    } else if parts.len() > 1 {
        let rest = parts.drop_last();
        assert forall|a: int, k: int|
            0 <= a < rest.len() && 0 <= k < rest[a].len() implies (#[trigger] rest[a][k])
            != '\n' by {
            assert(parts[a][k] != '\n');
        }
        join_has_no_end(rest);
        let n = join_of(rest, ","@).len() as int;
        assert forall|k: int| 0 <= k < join_of(parts, ","@).len() implies (#[trigger] join_of(
            parts,
            ","@,
        )[k]) != '\n' by {
            if k < n {
                assert(join_of(rest, ","@)[k] != '\n');
            } else if k > n {
                assert(parts[parts.len() - 1][k - n - 1] != '\n');
            }
        }
    }
}

proof fn rows_read_back(list: Seq<InstrumentFacts>, numbers: Map<Seq<char>, Decimal>)
    requires
        forall|k: int| 0 <= k < list.len() ==> can_be_listed(#[trigger] list[k], numbers),
    ensures
        rows_of(columns(), Seq::new(list.len(), |k: int| csv_row_of(list[k])), numbers) == Ok::<
            Seq<InstrumentFacts>,
            FeedFault,
        >(list),
    decreases list.len(),
{
    let rows = Seq::new(list.len(), |k: int| csv_row_of(list[k]));
    if list.len() == 0 {
        assert(list =~= Seq::empty());
    } else {
        let rest = list.drop_last();
        rows_read_back(rest, numbers);
        assert(rows.drop_last() =~= Seq::new(rest.len(), |k: int| csv_row_of(rest[k])));
        assert(can_be_listed(list[list.len() - 1], numbers));
        cells_read_back(list.last(), numbers);
        row_reads_back(list.last(), numbers);
        assert(rest.push(list.last()) =~= list);
    }
}

/// The lines of a file that lists instruments are its header and theirs.
proof fn listing_comes_apart(list: Seq<InstrumentFacts>, numbers: Map<Seq<char>, Decimal>)
    requires
        forall|k: int| 0 <= k < list.len() ==> can_be_listed(#[trigger] list[k], numbers),
    ensures
        inked_lines_of(listing_of(list)) == seq![UNIVERSAL_INSTRUMENT_CSV_HEADER@] + Seq::new(
            list.len(),
            |k: int| csv_row_of(list[k]),
        ),
{
    let rows = Seq::new(list.len(), |k: int| csv_row_of(list[k]));
    let head = UNIVERSAL_INSTRUMENT_CSV_HEADER@;
    let all = seq![head] + rows;
    header_is_line();
    assert forall|k: int| 0 <= k < rows.len() implies (#[trigger] rows[k]).len() > 0
        && rows[k].last() == 'e' && forall|i: int|
        0 <= i < rows[k].len() ==> rows[k][i] != '\n' by {
        row_is_line(list[k], numbers);
    }
    lines_come_apart(head, rows);
    reveal_strlit("\n");
    assert("\n"@ =~= seq!['\n']);
    assert forall|k: int| 0 <= k < all.len() implies (#[trigger] all[k]).len() > 0 && all[k].last()
        == 'e' && trim_of(all[k]).len() > 0 by {
        if k > 0 {
            assert(all[k] == rows[k - 1]);
        }
        ending_is_said(all[k]);
    }
    let p = split_of(listing_of(list), '\n');
    assert(p == all.push(Seq::empty()));
    assert(p.drop_last() =~= all);
    assert(lines_of(listing_of(list)) =~= all);
    all_are_kept(all);
}

/// A file that lists instruments is read back as just these, in their order.
pub proof fn listing_reads_back(list: Seq<InstrumentFacts>, numbers: Map<Seq<char>, Decimal>)
    requires
        forall|k: int| 0 <= k < list.len() ==> can_be_listed(#[trigger] list[k], numbers),
    ensures
        listed_of(listing_of(list), numbers) == Ok::<Seq<InstrumentFacts>, FeedFault>(list),
{
    let rows = Seq::new(list.len(), |k: int| csv_row_of(list[k]));
    let head = UNIVERSAL_INSTRUMENT_CSV_HEADER@;
    assert(cells_of(head) =~= columns()) by {
        column_names();
        split_of_join(columns(), ',');
    }
    listing_comes_apart(list, numbers);
    assert((seq![head] + rows).skip(1) =~= rows);
    rows_read_back(list, numbers);
}

proof fn header_is_line()
    ensures
        UNIVERSAL_INSTRUMENT_CSV_HEADER@.len() > 0,
        UNIVERSAL_INSTRUMENT_CSV_HEADER@.last() == 'e',
        forall|k: int|
            0 <= k < UNIVERSAL_INSTRUMENT_CSV_HEADER@.len()
                ==> UNIVERSAL_INSTRUMENT_CSV_HEADER@[k] != '\n',
{
    reveal_strlit("instrument_name,instrument_type,strike,expiry,broker,instrument_token,trading_symbol,exchange,segment,underlying,lot_size,tick_size,tradable");
}

} // verus!
