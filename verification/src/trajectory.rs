//! Reading trajectory files back: which lines are records, how a line
//! splits into fields, which fields a record's columns come from, and which
//! records an animation draws.

use vstd::prelude::*;
use vstd::string::StringExecFns;
use crate::text::{chars_of, string_from_chars};

verus! {

/// The fields of `s` between occurrences of `sep`, from left to right (as
/// `str::split` gives them): one more field than `s` has separators, empty
/// fields included.
pub open spec fn split_on(s: Seq<char>, sep: char) -> Seq<Seq<char>>
    decreases s.len(),
{
    if s.len() == 0 {
        seq![Seq::<char>::empty()]
    } else {
        let fields = split_on(s.drop_last(), sep);
        if s.last() == sep {
            fields.push(Seq::<char>::empty())
        } else {
            fields.update(fields.len() - 1, fields.last().push(s.last()))
        }
    }
}

/// `fields` written one after the other, with `sep` between neighbours.
pub open spec fn join_with(fields: Seq<Seq<char>>, sep: char) -> Seq<char>
    decreases fields.len(),
{
    if fields.len() <= 1 {
        if fields.len() == 0 {
            Seq::<char>::empty()
        } else {
            fields[0]
        }
    } else {
        join_with(fields.drop_last(), sep).push(sep) + fields.last()
    }
}

/// Splitting always gives at least one field.
pub proof fn lemma_split_nonempty(s: Seq<char>, sep: char)
    ensures
        split_on(s, sep).len() >= 1,
    decreases s.len(),
{
    if s.len() > 0 {
        lemma_split_nonempty(s.drop_last(), sep);
    }
}

/// Joining the fields of a line with the separator gives the line back, and
/// no field holds the separator.
pub proof fn lemma_split_join(s: Seq<char>, sep: char)
    ensures
        join_with(split_on(s, sep), sep) == s,
        forall|k: int|
            0 <= k < split_on(s, sep).len() ==> !(#[trigger] split_on(s, sep)[k]).contains(sep),
    decreases s.len(),
{
    if s.len() > 0 {
        let p = s.drop_last();
        let f = split_on(p, sep);
        lemma_split_nonempty(p, sep);
        lemma_split_join(p, sep);
        let c = s.last();
        let g = split_on(s, sep);
        if c == sep {
            assert(g.drop_last() =~= f);
            assert(join_with(g, sep) =~= s);
            assert forall|k: int| 0 <= k < g.len() implies !(#[trigger] g[k]).contains(sep) by {
                if k < g.len() - 1 {
                    assert(g[k] == f[k]);
                } else {
                    assert(g[k] =~= Seq::<char>::empty());
                }
            }
        } else {
            if f.len() == 1 {
                assert(join_with(f, sep) == f[0]);
                assert(g.len() == 1);
                assert(g[0] =~= f[0].push(c));
                assert(join_with(g, sep) =~= s);
            } else {
                assert(g.drop_last() =~= f.drop_last());
                assert(g.last() =~= f.last().push(c));
                assert(join_with(g, sep) =~= join_with(f, sep).push(c));
                assert(join_with(g, sep) =~= s);
            }
            assert forall|k: int| 0 <= k < g.len() implies !(#[trigger] g[k]).contains(sep) by {
                if k < g.len() - 1 {
                    assert(g[k] == f[k]);
                } else {
                    assert(g[k] =~= f[k].push(c));
                    assert(!f[k].contains(sep));
                    if g[k].contains(sep) {
                        let j = choose|j: int| 0 <= j < g[k].len() && g[k][j] == sep;
                        if j < f[k].len() {
                            assert(f[k][j] == sep);
                        }
                    }
                }
            }
        }
    }
}

/// Appending text without separators to a line extends its last field.
proof fn lemma_split_append_plain(s: Seq<char>, t: Seq<char>, sep: char)
    requires
        !t.contains(sep),
    ensures
        split_on(s + t, sep) == split_on(s, sep).update(
            split_on(s, sep).len() - 1,
            split_on(s, sep).last() + t,
        ),
    decreases t.len(),
{
    lemma_split_nonempty(s, sep);
    if t.len() == 0 {
        assert(s + t =~= s);
        assert(split_on(s, sep).last() + t =~= split_on(s, sep).last());
        assert(split_on(s, sep).update(split_on(s, sep).len() - 1, split_on(s, sep).last())
            =~= split_on(s, sep));
    } else {
        let u = t.drop_last();
        assert(!u.contains(sep)) by {
            if u.contains(sep) {
                let j = choose|j: int| 0 <= j < u.len() && u[j] == sep;
                assert(t[j] == sep);
            }
        }
        assert(t.last() != sep) by {
            assert(t[t.len() - 1] == t.last());
        }
        lemma_split_append_plain(s, u, sep);
        assert((s + t).drop_last() =~= s + u);
        assert((s + t).last() == t.last());
        let f = split_on(s, sep);
        let g = split_on(s + u, sep);
        assert(g.last() =~= f.last() + u);
        assert(split_on(s + t, sep) =~= f.update(f.len() - 1, f.last() + t)) by {
            assert(f.last() + u.push(t.last()) =~= f.last() + t);
            assert(u.push(t.last()) =~= t);
        }
    }
}

/// Splitting fields that were joined with a separator they do not hold
/// gives the same fields back.
pub proof fn lemma_join_split(fields: Seq<Seq<char>>, sep: char)
    requires
        fields.len() >= 1,
        forall|k: int| 0 <= k < fields.len() ==> !(#[trigger] fields[k]).contains(sep),
    ensures
        split_on(join_with(fields, sep), sep) == fields,
    decreases fields.len(),
{
    let e = Seq::<char>::empty();
    if fields.len() == 1 {
        lemma_split_append_plain(e, fields[0], sep);
        assert(e + fields[0] =~= fields[0]);
        assert(split_on(e, sep) =~= seq![e]);
        assert(e + fields[0] =~= fields[0]);
        assert(split_on(fields[0], sep) =~= fields);
    } else {
        let front = fields.drop_last();
        assert forall|k: int| 0 <= k < front.len() implies !(#[trigger] front[k]).contains(sep) by {
            assert(front[k] == fields[k]);
        }
        lemma_join_split(front, sep);
        let head = join_with(front, sep).push(sep);
        assert(head.drop_last() =~= join_with(front, sep));
        assert(split_on(head, sep) =~= front.push(e));
        assert(!fields.last().contains(sep)) by {
            assert(fields[fields.len() - 1] == fields.last());
        }
        lemma_split_append_plain(head, fields.last(), sep);
        assert(e + fields.last() =~= fields.last());
        assert(front.push(e).update(front.len() as int, fields.last()) =~= fields);
    }
}

/// Returns the comma-separated fields of `line`, in order.
pub fn split_fields(line: &str) -> (fields: Vec<String>)
    ensures
        fields@.len() == split_on(line@, ',').len(),
        forall|k: int| 0 <= k < fields@.len() ==> #[trigger] fields@[k]@ == split_on(line@, ',')[k],
{
    let cs = chars_of(line);
    let mut fields: Vec<String> = Vec::new();
    let mut current: Vec<char> = Vec::new();
    let mut i: usize = 0;
    while i < cs.len()
        invariant
            i <= cs@.len(),
            cs@ == line@,
            split_on(cs@.take(i as int), ',').len() == fields@.len() + 1,
            forall|k: int|
                0 <= k < fields@.len() ==> #[trigger] fields@[k]@ == split_on(
                    cs@.take(i as int),
                    ',',
                )[k],
            current@ == split_on(cs@.take(i as int), ',').last(),
        decreases cs.len() - i,
    {
        let c = cs[i];
        let ghost before = cs@.take(i as int);
        assert(cs@.take(i + 1).drop_last() =~= before);
        assert(cs@.take(i + 1).last() == c);
        if c == ',' {
            fields.push(string_from_chars(&current));
            current = Vec::new();
            assert(current@ =~= Seq::<char>::empty());
        } else {
            current.push(c);
        }
        i = i + 1;
    }
    assert(cs@.take(cs.len() as int) =~= line@);
    fields.push(string_from_chars(&current));
    fields
}

/// Whether `pat` occurs in `s` as a run of consecutive characters.
pub open spec fn contains_text(s: Seq<char>, pat: Seq<char>) -> bool {
    exists|i: int| 0 <= i && i + pat.len() <= s.len() && #[trigger] s.subrange(i, i + pat.len()) == pat
}

/// Returns whether `pat` occurs in `s` (as `str::contains` with a string pattern).
pub fn contains_chars(s: &Vec<char>, pat: &Vec<char>) -> (found: bool)
    ensures
        found == contains_text(s@, pat@),
{
    if pat.len() > s.len() {
        return false;
    }
    if pat.len() == 0 {
        assert(s@.subrange(0int, 0int + pat@.len()) =~= pat@);
        return true;
    }
    let last = s.len() - pat.len();
    let mut i: usize = 0;
    while i <= last
        invariant
            last == s@.len() - pat@.len(),
            1 <= pat@.len() <= s@.len() <= usize::MAX,
            i <= last + 1,
            forall|j: int| 0 <= j < i ==> #[trigger] s@.subrange(j, j + pat@.len()) != pat@,
        decreases last + 1 - i,
    {
        let mut k: usize = 0;
        let mut same = true;
        while k < pat.len()
            invariant
                i <= last,
                last == s@.len() - pat@.len(),
                1 <= pat@.len() <= s@.len() <= usize::MAX,
                k <= pat@.len(),
                same <==> (forall|m: int| 0 <= m < k ==> s@[i + m] == #[trigger] pat@[m]),
            decreases pat.len() - k,
        {
            if s[i + k] != pat[k] {
                same = false;
            }
            k = k + 1;
        }
        if same {
            assert(s@.subrange(i as int, i + pat@.len()) =~= pat@);
            return true;
        }
        proof {
            let m = choose|m: int| 0 <= m < pat@.len() && s@[i + m] != #[trigger] pat@[m];
            assert(s@.subrange(i as int, i + pat@.len())[m] != pat@[m]);
        }
        i = i + 1;
    }
    false
}

/// Names of the columns of a trajectory file, in order.
pub open spec fn trajectory_column_names() -> Seq<Seq<char>> {
    seq!["t"@, "theta1"@, "omega1"@, "theta2"@, "omega2"@, "energy"@]
}

/// Returns the column names that head a trajectory file.
pub fn trajectory_columns() -> (names: Vec<String>)
    ensures
        names@.len() == trajectory_column_names().len(),
        forall|k: int| 0 <= k < names@.len() ==> #[trigger] names@[k]@ == trajectory_column_names()[k],
{
    let mut names: Vec<String> = Vec::new();
    names.push(String::from_str("t"));
    names.push(String::from_str("theta1"));
    names.push(String::from_str("omega1"));
    names.push(String::from_str("theta2"));
    names.push(String::from_str("omega2"));
    names.push(String::from_str("energy"));
    names
}

/// Whether line `index` of a trajectory file is its header: the first line,
/// where it names the column `theta1`.
pub open spec fn is_header(index: nat, line: Seq<char>) -> bool {
    index == 0 && contains_text(line, "theta1"@)
}

/// The header line that the simulation writes (its column names joined by
/// commas) is the header that the readers skip, and splitting it gives the
/// column names back; no later line is taken for a header.
pub proof fn lemma_written_header_is_recognised(index: nat, line: Seq<char>)
    ensures
        is_header(0, join_with(trajectory_column_names(), ',')),
        split_on(join_with(trajectory_column_names(), ','), ',') == trajectory_column_names(),
        index > 0 ==> !is_header(index, line),
{
    reveal_strlit("t");
    reveal_strlit("theta1");
    reveal_strlit("omega1");
    reveal_strlit("theta2");
    reveal_strlit("omega2");
    reveal_strlit("energy");
    let names = trajectory_column_names();
    assert forall|k: int| 0 <= k < names.len() implies !(#[trigger] names[k]).contains(',') by {
        if names[k].contains(',') {
            let j = choose|j: int| 0 <= j < names[k].len() && names[k][j] == ',';
        }
    }
    lemma_join_split(names, ',');
    let joined = join_with(names, ',');
    lemma_join_prefix(names, ',', 2);
    let two = names.take(2);
    assert(two.drop_last() =~= seq!["t"@]);
    assert(two.len() == 2 && two.last() == "theta1"@);
    assert(join_with(seq!["t"@], ',') == "t"@);
    assert(join_with(two, ',') == join_with(two.drop_last(), ',').push(',') + two.last());
    assert(join_with(two, ',') =~= "t"@.push(',') + "theta1"@);
    let jt = join_with(two, ',');
    assert(jt.len() == 8);
    assert(joined.take(8) == jt);
    assert(jt.subrange(2, 8) =~= "theta1"@);
    assert(joined.subrange(2, 8) =~= jt.subrange(2, 8));
}

/// The fields joined so far are the start of all the fields joined.
proof fn lemma_join_prefix(fields: Seq<Seq<char>>, sep: char, n: int)
    requires
        1 <= n <= fields.len(),
    ensures
        join_with(fields.take(n), sep).len() <= join_with(fields, sep).len(),
        join_with(fields, sep).take(join_with(fields.take(n), sep).len() as int) == join_with(
            fields.take(n),
            sep,
        ),
    decreases fields.len(),
{
    if n == fields.len() {
        assert(fields.take(n) =~= fields);
        assert(join_with(fields, sep).take(join_with(fields, sep).len() as int) =~= join_with(fields, sep));
    } else {
        let front = fields.drop_last();
        lemma_join_prefix(front, sep, n);
        assert(front.take(n) =~= fields.take(n));
        let whole = join_with(fields, sep);
        assert(whole == join_with(front, sep).push(sep) + fields.last());
        let k = join_with(fields.take(n), sep).len() as int;
        assert(whole.take(k) =~= join_with(front, sep).take(k));
    }
}

/// Returns whether line `index`, `line`, is the header that a reader skips.
pub fn is_header_line(index: usize, line: &str) -> (header: bool)
    ensures
        header == is_header(index as nat, line@),
{
    if index != 0 {
        return false;
    }
    let pat = chars_of("theta1");
    contains_chars(&chars_of(line), &pat)
}

/// Positions of the fields that parse as numbers, in increasing order:
/// `ok[j]` says whether field `j` parses.
pub open spec fn parsed_positions(ok: Seq<bool>) -> Seq<int>
    decreases ok.len(),
{
    if ok.len() == 0 {
        Seq::<int>::empty()
    } else {
        let p = parsed_positions(ok.drop_last());
        if ok.last() {
            p.push(ok.len() - 1)
        } else {
            p
        }
    }
}

/// The positions of the parsing fields are exactly the fields that parse,
/// each once, from left to right.
pub proof fn lemma_parsed_positions(ok: Seq<bool>)
    ensures
        forall|k: int|
            0 <= k < parsed_positions(ok).len() ==> 0 <= #[trigger] parsed_positions(ok)[k]
                < ok.len() && ok[parsed_positions(ok)[k]],
        forall|k: int, l: int|
            0 <= k < l < parsed_positions(ok).len() ==> #[trigger] parsed_positions(ok)[k]
                < #[trigger] parsed_positions(ok)[l],
        forall|j: int| 0 <= j < ok.len() && #[trigger] ok[j] ==> parsed_positions(ok).contains(j),
        parsed_positions(ok).len() <= ok.len(),
    decreases ok.len(),
{
    if ok.len() > 0 {
        let q = ok.drop_last();
        lemma_parsed_positions(q);
        let p = parsed_positions(q);
        assert forall|j: int| 0 <= j < ok.len() && #[trigger] ok[j] implies parsed_positions(
            ok,
        ).contains(j) by {
            if j < ok.len() - 1 {
                assert(q[j] == ok[j]);
                let k = choose|k: int| 0 <= k < p.len() && p[k] == j;
                assert(parsed_positions(ok)[k] == j);
            } else {
                assert(parsed_positions(ok)[p.len() as int] == j);
            }
        }
        assert forall|k: int|
            0 <= k < parsed_positions(ok).len() implies 0 <= #[trigger] parsed_positions(ok)[k]
            < ok.len() && ok[parsed_positions(ok)[k]] by {
            if k < p.len() {
                assert(q[p[k]] == ok[p[k]]);
            }
        }
    }
}

/// Number of values that a trajectory record holds: time, the two angles,
/// the two angular velocities and the energy.
pub const RECORD_FIELDS: usize = 6;

/// Returns the positions of the fields that parse, in increasing order.
pub fn parsed_field_positions(ok: &Vec<bool>) -> (positions: Vec<usize>)
    ensures
        positions@.len() == parsed_positions(ok@).len(),
        forall|k: int|
            0 <= k < positions@.len() ==> #[trigger] positions@[k] as int == parsed_positions(ok@)[k],
{
    let mut positions: Vec<usize> = Vec::new();
    let mut j: usize = 0;
    while j < ok.len()
        invariant
            j <= ok@.len(),
            positions@.len() == parsed_positions(ok@.take(j as int)).len(),
            forall|k: int|
                0 <= k < positions@.len() ==> #[trigger] positions@[k] as int == parsed_positions(
                    ok@.take(j as int),
                )[k],
        decreases ok.len() - j,
    {
        assert(ok@.take(j + 1).drop_last() =~= ok@.take(j as int));
        if ok[j] {
            positions.push(j);
        }
        j = j + 1;
    }
    assert(ok@.take(ok.len() as int) =~= ok@);
    positions
}

/// Where a line holds at least six fields that parse, the positions of the
/// first six of them (time, `theta1`, `omega1`, `theta2`, `omega2`, energy);
/// `None` for a line that is no record.
pub fn record_columns(ok: &Vec<bool>) -> (columns: Option<Vec<usize>>)
    ensures
        columns is Some <==> parsed_positions(ok@).len() >= RECORD_FIELDS,
        columns matches Some(c) ==> c@.len() == RECORD_FIELDS && forall|k: int|
            0 <= k < RECORD_FIELDS ==> #[trigger] c@[k] as int == parsed_positions(ok@)[k],
{
    let positions = parsed_field_positions(ok);
    if positions.len() < RECORD_FIELDS {
        return None;
    }
    let mut c: Vec<usize> = Vec::new();
    let mut k: usize = 0;
    while k < RECORD_FIELDS
        invariant
            k <= RECORD_FIELDS,
            positions@.len() >= RECORD_FIELDS,
            positions@.len() == parsed_positions(ok@).len(),
            forall|m: int|
                0 <= m < positions@.len() ==> #[trigger] positions@[m] as int == parsed_positions(ok@)[m],
            c@ =~= positions@.take(k as int),
        decreases RECORD_FIELDS - k,
    {
        c.push(positions[k]);
        k = k + 1;
    }
    assert forall|m: int| 0 <= m < RECORD_FIELDS implies #[trigger] c@[m] as int == parsed_positions(ok@)[m] by {
        assert(c@[m] == positions@[m]);
    }
    Some(c)
}

/// An animation draws one record in this many.
pub const FRAME_SKIP: usize = 10;

/// How many records an animation draws out of `count` when it draws one in
/// every `skip`: `count / skip`, rounded up.
pub open spec fn frame_count(count: nat, skip: nat) -> nat
    recommends
        skip > 0,
{
    if count % skip == 0 {
        count / skip
    } else {
        count / skip + 1
    }
}

/// The records that an animation draws out of `count`, one in every
/// `skip`, starting with the first (as `iter().enumerate().step_by(skip)`).
pub open spec fn frame_positions(count: nat, skip: nat) -> Seq<int>
    recommends
        skip > 0,
{
    Seq::new(frame_count(count, skip), |k: int| k * skip)
}

/// Every frame drawn is a record of the file, and every record whose index
/// is a multiple of `skip` is drawn.
pub proof fn lemma_frames_cover(count: nat, skip: nat)
    requires
        skip > 0,
    ensures
        forall|k: int|
            0 <= k < frame_positions(count, skip).len() ==> 0 <= #[trigger] frame_positions(
                count,
                skip,
            )[k] < count,
        forall|j: int|
            0 <= j < count && j % (skip as int) == 0 ==> frame_positions(count, skip).contains(j),
{
    assert forall|k: int| 0 <= k < frame_positions(count, skip).len() implies 0
        <= #[trigger] frame_positions(count, skip)[k] < count by {
        lemma_frame_below_count(count, skip, k);
    }
    assert forall|j: int| 0 <= j < count && j % (skip as int) == 0 implies frame_positions(
        count,
        skip,
    ).contains(j) by {
        let k = j / (skip as int);
        vstd::arithmetic::div_mod::lemma_div_is_ordered(j, count as int, skip as int);
        assert(k * skip == j && 0 <= k) by (nonlinear_arith)
            requires
                skip > 0,
                0 <= j,
                j % (skip as int) == 0,
                k == j / (skip as int),
        {
            assert(j == (skip as int) * (j / (skip as int)) + j % (skip as int));
        }
        if count % skip == 0 {
            let q = count / skip;
            vstd::arithmetic::div_mod::lemma_fundamental_div_mod(count as int, skip as int);
            assert(k < q) by (nonlinear_arith)
                requires
                    skip > 0,
                    k * skip == j,
                    j < count,
                    count == skip * q,
            ;
        }
        assert(frame_positions(count, skip)[k] == j);
    }
}

/// The `k`-th frame lies before the end of the file.
proof fn lemma_frame_below_count(count: nat, skip: nat, k: int)
    requires
        skip > 0,
        0 <= k < frame_count(count, skip),
    ensures
        0 <= k * skip < count,
{
    let q = count / skip;
    let r = count % skip;
    assert(count == skip * q + r && 0 <= r < skip) by {
        vstd::arithmetic::div_mod::lemma_fundamental_div_mod(count as int, skip as int);
    }
    assert(0 <= k * skip < count) by (nonlinear_arith)
        requires
            skip > 0,
            0 <= k,
            count == skip * q + r,
            0 <= r < skip,
            r == 0 ==> k < q,
            r != 0 ==> k <= q,
    {
        assert(k * skip <= q * skip);
        if r == 0 {
            assert(k * skip <= (q - 1) * skip);
        }
    }
}

/// Returns the indices of the records to draw.
pub fn frame_indices(count: usize, skip: usize) -> (frames: Vec<usize>)
    requires
        skip > 0,
    ensures
        frames@.len() == frame_positions(count as nat, skip as nat).len(),
        forall|k: int|
            0 <= k < frames@.len() ==> #[trigger] frames@[k] as int == frame_positions(
                count as nat,
                skip as nat,
            )[k],
{
    let total: usize = if count % skip == 0 {
        count / skip
    } else {
        assert(count / skip < usize::MAX) by (nonlinear_arith)
            requires
                skip >= 2,
                count <= usize::MAX,
        ;
        count / skip + 1
    };
    let mut frames: Vec<usize> = Vec::new();
    let mut k: usize = 0;
    while k < total
        invariant
            skip > 0,
            total == frame_count(count as nat, skip as nat),
            k <= total,
            frames@.len() == k,
            forall|m: int| 0 <= m < k ==> #[trigger] frames@[m] as int == m * skip,
        decreases total - k,
    {
        proof {
            lemma_frame_below_count(count as nat, skip as nat, k as int);
        }
        frames.push(k * skip);
        k = k + 1;
    }
    frames
}

} // verus!
