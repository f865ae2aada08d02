//! The rows of an instance listing: which tag names an instance, which
//! placeholders stand for missing fields, the order of the rows and the width
//! of their columns.
use vstd::prelude::*;
use crate::fields::FetchError;
use vstd::multiset::Multiset;

verus! {

/// One key/value tag of an instance.
pub struct Tag {
    pub key: Option<String>,
    pub value: Option<String>,
}

/// The lifecycle state of an instance.
pub struct InstanceState {
    pub name: Option<String>,
}

/// What a listing reads of an instance.
pub struct Instance {
    pub instance_id: Option<String>,
    pub tags: Option<Vec<Tag>>,
    pub state: Option<InstanceState>,
}

/// A group of instances launched together.
pub struct Reservation {
    pub instances: Option<Vec<Instance>>,
}

/// One line of an instance listing.
pub struct Row {
    pub id: String,
    pub name: String,
    pub state: String,
}

/// Whether a tag gives the instance's name: its key is `Name` and it has a value.
pub open spec fn is_name_tag(t: Tag) -> bool {
    &&& t.key matches Some(k) && k@ == "Name"@
    &&& t.value is Some
}

/// The value of the first name tag among `tags`, if there is one.
pub open spec fn name_in(tags: Seq<Tag>) -> Option<String>
    decreases tags.len(),
{
    if tags.len() == 0 {
        None
    } else if is_name_tag(tags[0]) {
        tags[0].value
    } else {
        name_in(tags.drop_first())
    }
}

pub open spec fn spec_instance_name(instance: Instance) -> Option<String> {
    match instance.tags {
        Some(tags) => name_in(tags@),
        None => None,
    }
}

pub open spec fn spec_state_name(instance: Instance) -> Option<String> {
    match instance.state {
        Some(state) => state.name,
        None => None,
    }
}

/// The name of an instance: the value of its first tag keyed `Name` that has a value.
pub fn get_instance_name(instance: &Instance) -> (r: Option<String>)
    ensures
        r == spec_instance_name(*instance),
{
    match &instance.tags {
        None => None,
        Some(tags) => {
            let name_key = String::from_str("Name");
            let n = tags.len();
            let mut i: usize = 0;
            assert(tags@.skip(0) =~= tags@);
            while i < n
                invariant
                    instance.tags == Some(*tags),
                    n == tags@.len(),
                    0 <= i <= n,
                    name_key@ == "Name"@,
                    name_in(tags@) == name_in(tags@.skip(i as int)),
                decreases n - i,
            {
                proof {
                    assert(tags@.skip(i as int).drop_first() =~= tags@.skip(i + 1));
                    assert(tags@.skip(i as int)[0] == tags@[i as int]);
                }
                let tag = &tags[i];
                if let Some(key) = &tag.key {
                    if *key == name_key {
                        if let Some(value) = &tag.value {
                            return Some(value.clone());
                        }
                    }
                }
                i = i + 1;
            }
            None
        },
    }
}

/// The name of an instance's state, if the instance reports one.
pub fn get_instance_state_name(instance: &Instance) -> (r: Option<String>)
    ensures
        r == spec_state_name(*instance),
{
    match &instance.state {
        Some(state) => match &state.name {
            Some(name) => Some(name.clone()),
            None => None,
        },
        None => None,
    }
}

/// Whether `a` comes no later than `b` in the lexicographic order of their
/// characters (the order of `String`'s comparison).
pub open spec fn name_le(a: Seq<char>, b: Seq<char>) -> bool
    decreases a.len(),
{
    if a.len() == 0 {
        true
    } else if b.len() == 0 {
        false
    } else if a[0] != b[0] {
        (a[0] as int) < (b[0] as int)
    } else {
        name_le(a.drop_first(), b.drop_first())
    }
}

proof fn lemma_name_le_total(a: Seq<char>, b: Seq<char>)
    ensures
        name_le(a, b) || name_le(b, a),
    decreases a.len(),
{
    if a.len() > 0 && b.len() > 0 {
        if a[0] == b[0] {
            lemma_name_le_total(a.drop_first(), b.drop_first());
        }
    }
}

proof fn lemma_name_le_trans(a: Seq<char>, b: Seq<char>, c: Seq<char>)
    requires
        name_le(a, b),
        name_le(b, c),
    ensures
        name_le(a, c),
    decreases a.len(),
{
    if a.len() > 0 && b.len() > 0 && c.len() > 0 && a[0] == b[0] && b[0] == c[0] {
        lemma_name_le_trans(a.drop_first(), b.drop_first(), c.drop_first());
    }
}

/// Whether the rows are in order of their names.
pub open spec fn sorted_by_name(rows: Seq<Row>) -> bool {
    forall|i: int, j: int| 0 <= i < j < rows.len() ==> name_le(#[trigger] rows[i].name@, #[trigger] rows[j].name@)
}

/// Compares two names in the order of `name_le`.
pub fn name_precedes(a: &String, b: &String) -> (r: bool)
    ensures
        r == name_le(a@, b@),
{
    let sa = a.as_str();
    let sb = b.as_str();
    let la = sa.unicode_len();
    let lb = sb.unicode_len();
    let mut i: usize = 0;
    assert(a@.skip(0) =~= a@);
    assert(b@.skip(0) =~= b@);
    while i < la && i < lb
        invariant
            la == a@.len(),
            lb == b@.len(),
            sa@ == a@,
            sb@ == b@,
            i <= la,
            i <= lb,
            name_le(a@, b@) == name_le(a@.skip(i as int), b@.skip(i as int)),
        decreases la - i,
    {
        let ca = sa.get_char(i);
        let cb = sb.get_char(i);
        proof {
            assert(a@.skip(i as int)[0] == ca);
            assert(b@.skip(i as int)[0] == cb);
            assert(a@.skip(i as int).drop_first() =~= a@.skip(i + 1));
            assert(b@.skip(i as int).drop_first() =~= b@.skip(i + 1));
        }
        if ca != cb {
            return (ca as u32) < (cb as u32);
        }
        i = i + 1;
    }
    i == la
}

/// The rows in order of their names, the same rows as given.
pub fn sort_rows_by_name(rows: Vec<Row>) -> (out: Vec<Row>)
    ensures
        out@.to_multiset() == rows@.to_multiset(),
        sorted_by_name(out@),
{
    broadcast use vstd::multiset::group_multiset_axioms, vstd::seq_lib::group_to_multiset_ensures;

    let ghost orig = rows@;
    let mut rows = rows;
    let mut out: Vec<Row> = Vec::new();
    assert(out@.to_multiset() =~= Multiset::<Row>::empty());
    while rows.len() > 0
        invariant
            out@.to_multiset().add(rows@.to_multiset()) == orig.to_multiset(),
            sorted_by_name(out@),
        decreases rows@.len(),
    {
        let ghost before = rows@;
        let x = rows.pop().unwrap();
        assert(before =~= rows@.push(x));
        let mut k: usize = 0;
        let n = out.len();
        while k < n && name_precedes(&out[k].name, &x.name)
            invariant
                n == out@.len(),
                k <= n,
                forall|i: int| 0 <= i < k ==> name_le(#[trigger] out@[i].name@, x.name@),
            decreases n - k,
        {
            k = k + 1;
        }
        proof {
            if k < n {
                lemma_name_le_total(out@[k as int].name@, x.name@);
            }
        }
        let ghost prev = out@;
        out.insert(k, x);
        proof {
            assert forall|i: int, j: int| 0 <= i < j < out@.len() implies name_le(#[trigger] out@[i].name@, #[trigger] out@[j].name@) by {
                if j == k {
                } else if i == k {
                    if j - 1 > k {
                        assert(name_le(prev[k as int].name@, prev[j - 1].name@));
                        lemma_name_le_trans(x.name@, prev[k as int].name@, prev[j - 1].name@);
                    }
                } else if i < k && j > k {
                    assert(name_le(prev[i].name@, x.name@));
                    assert(name_le(x.name@, prev[j - 1].name@)) by {
                        if j - 1 > k {
                            assert(name_le(prev[k as int].name@, prev[j - 1].name@));
                            lemma_name_le_trans(x.name@, prev[k as int].name@, prev[j - 1].name@);
                        }
                    }
                    lemma_name_le_trans(prev[i].name@, x.name@, prev[j - 1].name@);
                } else if i > k {
                    assert(name_le(prev[i - 1].name@, prev[j - 1].name@));
                } else {
                    assert(name_le(prev[i].name@, prev[j].name@));
                }
            }
            assert(out@ == prev.insert(k as int, x));
            vstd::seq_lib::to_multiset_insert(prev, k as int, x);
            vstd::seq_lib::to_multiset_build(rows@, x);
            assert(out@.to_multiset().add(rows@.to_multiset()) =~= orig.to_multiset());
        }
    }
    assert(rows@.to_multiset() =~= Multiset::<Row>::empty());
    assert(out@.to_multiset().add(rows@.to_multiset()) =~= out@.to_multiset());
    out
}

/// Width of the instance id column.
pub const ID_WIDTH: usize = 19;

/// The id shown for an instance that reports none.
pub open spec fn id_text(i: Instance) -> Seq<char> {
    match i.instance_id {
        Some(id) => id@,
        None => "i-?????????????????"@,
    }
}

/// The name shown for an instance: its name tag, or a placeholder.
pub open spec fn name_text(i: Instance) -> Seq<char> {
    match spec_instance_name(i) {
        Some(n) => n@,
        None => "<no-name>"@,
    }
}

/// The state shown for an instance: its state name, or a placeholder.
pub open spec fn state_text(i: Instance) -> Seq<char> {
    match spec_state_name(i) {
        Some(n) => n@,
        None => "unknown"@,
    }
}

/// Whether `row` is the row shown for `inst`.
pub open spec fn row_for(row: Row, inst: Instance) -> bool {
    &&& row.id@ == id_text(inst)
    &&& row.name@ == name_text(inst)
    &&& row.state@ == state_text(inst)
}

/// Whether `rows` are the rows of `insts`, one for one and in order.
pub open spec fn rows_for(rows: Seq<Row>, insts: Seq<Instance>) -> bool {
    &&& rows.len() == insts.len()
    &&& forall|i: int| 0 <= i < rows.len() ==> row_for(#[trigger] rows[i], insts[i])
}

/// The instances of the reservations, reservation by reservation.
pub open spec fn instances_of(res: Seq<Reservation>) -> Seq<Instance>
    decreases res.len(),
{
    if res.len() == 0 {
        Seq::empty()
    } else {
        instances_of(res.drop_last()) + match res.last().instances {
            Some(v) => v@,
            None => Seq::empty(),
        }
    }
}

/// The row shown for one instance.
pub fn instance_row(inst: &Instance) -> (row: Row)
    ensures
        row_for(row, *inst),
{
    let id = match &inst.instance_id {
        Some(id) => id.clone(),
        None => String::from_str("i-?????????????????"),
    };
    let name = match get_instance_name(inst) {
        Some(n) => n,
        None => String::from_str("<no-name>"),
    };
    let state = match get_instance_state_name(inst) {
        Some(n) => n,
        None => String::from_str("unknown"),
    };
    Row { id, name, state }
}

/// The rows of every instance of the reservations, in the order given.
pub fn instance_rows(reservations: &Vec<Reservation>) -> (rows: Vec<Row>)
    ensures
        rows_for(rows@, instances_of(reservations@)),
{
    let mut rows: Vec<Row> = Vec::new();
    let mut r: usize = 0;
    while r < reservations.len()
        invariant
            r <= reservations@.len(),
            rows_for(rows@, instances_of(reservations@.take(r as int))),
        decreases reservations@.len() - r,
    {
        proof {
            assert(reservations@.take(r + 1).drop_last() =~= reservations@.take(r as int));
        }
        let ghost base = instances_of(reservations@.take(r as int));
        if let Some(insts) = &reservations[r].instances {
            let mut j: usize = 0;
            while j < insts.len()
                invariant
                    j <= insts@.len(),
                    rows_for(rows@, base + insts@.take(j as int)),
                decreases insts@.len() - j,
            {
                let row = instance_row(&insts[j]);
                let ghost prev = rows@;
                rows.push(row);
                proof {
                    assert(base + insts@.take(j + 1) =~= (base + insts@.take(j as int)).push(insts@[j as int]));
                    assert forall|i: int| 0 <= i < rows@.len() implies row_for(#[trigger] rows@[i], (base + insts@.take(j + 1))[i]) by {
                        if i < prev.len() {
                            assert(rows@[i] == prev[i]);
                        }
                    }
                }
                j = j + 1;
            }
            proof {
                assert(insts@.take(insts@.len() as int) =~= insts@);
                assert(instances_of(reservations@.take(r + 1)) =~= base + insts@);
            }
        } else {
            proof {
                assert(instances_of(reservations@.take(r + 1)) =~= base);
            }
        }
        r = r + 1;
    }
    proof {
        assert(reservations@.take(reservations@.len() as int) =~= reservations@);
    }
    rows
}

/// The rows of an instance listing, in order of their names; a response
/// without its reservations is an error.
pub fn list_rows(reservations: Option<Vec<Reservation>>) -> (r: Result<Vec<Row>, FetchError>)
    ensures
        reservations is None ==> (r is Err && r->Err_0 is MissingField && r->Err_0->MissingField_0@ == "reservations field"@),
        reservations is Some ==> (r is Ok && sorted_by_name(r->Ok_0@) && exists|u: Seq<Row>|
            rows_for(u, instances_of(reservations->0@)) && #[trigger] u.to_multiset() == r->Ok_0@.to_multiset()),
{
    match reservations {
        None => Err(FetchError::MissingField(String::from_str("reservations field"))),
        Some(res) => {
            let rows = instance_rows(&res);
            let ghost u = rows@;
            let sorted = sort_rows_by_name(rows);
            assert(rows_for(u, instances_of(res@)) && u.to_multiset() == sorted@.to_multiset());
            Ok(sorted)
        },
    }
}

/// The longest state among the rows, counted in characters; 0 for no rows.
pub open spec fn max_state_len(rows: Seq<Row>) -> nat
    decreases rows.len(),
{
    if rows.len() == 0 {
        0
    } else {
        let rest = max_state_len(rows.drop_last());
        let last = rows.last().state@.len();
        if last > rest { last } else { rest }
    }
}

/// Width of the state column: the length of the longest state.
pub fn state_width(rows: &Vec<Row>) -> (w: usize)
    ensures
        w == max_state_len(rows@),
{
    let mut w: usize = 0;
    let mut i: usize = 0;
    while i < rows.len()
        invariant
            i <= rows@.len(),
            w == max_state_len(rows@.take(i as int)),
        decreases rows@.len() - i,
    {
        proof {
            assert(rows@.take(i + 1).drop_last() =~= rows@.take(i as int));
        }
        let len = rows[i].state.as_str().unicode_len();
        if len > w {
            w = len;
        }
        i = i + 1;
    }
    proof {
        assert(rows@.take(rows@.len() as int) =~= rows@);
    }
    w
}

/// `s` followed by spaces up to `width` characters; `s` itself if it is
/// that long already.
pub open spec fn padded(s: Seq<char>, width: nat) -> Seq<char> {
    if s.len() >= width {
        s
    } else {
        s + Seq::new((width - s.len()) as nat, |k: int| ' ')
    }
}

fn pad_to(out: &mut String, s: &String, width: usize)
    ensures
        final(out)@ == old(out)@ + padded(s@, width as nat),
{
    out.append(s.as_str());
    let len = s.as_str().unicode_len();
    let mut k: usize = len;
    let ghost start = old(out)@;
    assert(s@ + Seq::new(0, |k: int| ' ') =~= s@);
    while k < width
        invariant
            len == s@.len(),
            len <= k,
            k <= width || k == len,
            out@ == start + s@ + Seq::new((k - len) as nat, |k: int| ' '),
        decreases width - k,
    {
        out.append(" ");
        proof {
            reveal_strlit(" ");
            assert(start + s@ + Seq::new((k - len) as nat, |k: int| ' ') + " "@ =~= start + s@ + Seq::new((k + 1 - len) as nat, |k: int| ' '));
        }
        k = k + 1;
    }
    assert(start + s@ + Seq::new((k - len) as nat, |k: int| ' ') =~= start + padded(s@, width as nat));
}

/// The line of a listing for `row`: its id padded to the id column, its state
/// padded to `width`, and its name, separated by single spaces.
pub open spec fn row_line(row: Row, width: nat) -> Seq<char> {
    padded(row.id@, ID_WIDTH as nat) + " "@ + padded(row.state@, width) + " "@ + row.name@
}

/// Formats one row of a listing whose state column is `width` wide.
pub fn format_row(row: &Row, width: usize) -> (line: String)
    ensures
        line@ == row_line(*row, width as nat),
{
    let mut line = String::new();
    pad_to(&mut line, &row.id, ID_WIDTH);
    line.append(" ");
    pad_to(&mut line, &row.state, width);
    line.append(" ");
    line.append(row.name.as_str());
    assert(line@ =~= row_line(*row, width as nat));
    line
}

} // verus!
