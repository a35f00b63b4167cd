use vstd::prelude::*;
use crate::todo::{
    all_ok_date, all_ok_text, ddates_of, dones_ok, dtexts_of, lemma_ok_date_push,
    lemma_ok_text_push, ok_date, ok_text, texts_of, todos_ok, DoneItem, TodoItem,
};

verus! {

/// One item per line. An open item is kept as `[ ] text`; a done item as
/// `[X] |date| text`. Dates hold no `|` and texts no line break, so the
/// two shapes never collide and both read back exactly.

pub open spec fn open_prefix() -> Seq<char> {
    seq!['[', ' ', ']', ' ']
}

pub open spec fn done_prefix() -> Seq<char> {
    seq!['[', 'X', ']', ' ', '|']
}

pub open spec fn open_line(t: Seq<char>) -> Seq<char> {
    open_prefix() + t
}

pub open spec fn done_line(t: Seq<char>, d: Seq<char>) -> Seq<char> {
    done_prefix() + d + seq!['|', ' '] + t
}

/// Index of the first `|` at or after `i`, if any.
pub open spec fn pipe_pos(s: Seq<char>, i: int) -> Option<int>
    decreases s.len() - i when 0 <= i <= s.len()
{
    if i >= s.len() {
        None
    } else if s[i] == '|' {
        Some(i)
    } else {
        pipe_pos(s, i + 1)
    }
}

proof fn lemma_pipe_pos_found(s: Seq<char>, i: int, j: int)
    requires
        0 <= i <= j < s.len(),
        s[j] == '|',
        forall|k: int| i <= k < j ==> s[k] != '|',
    ensures
        pipe_pos(s, i) == Some(j),
    decreases j - i,
{
    if i < j {
        lemma_pipe_pos_found(s, i + 1, j);
    }
}

proof fn lemma_pipe_pos_none(s: Seq<char>, i: int)
    requires
        0 <= i <= s.len(),
        forall|k: int| i <= k < s.len() ==> s[k] != '|',
    ensures
        pipe_pos(s, i) is None,
    decreases s.len() - i,
{
    if i < s.len() {
        lemma_pipe_pos_none(s, i + 1);
    }
}

/// The text of an open-item line, if `l` has that shape.
pub open spec fn parse_open(l: Seq<char>) -> Option<Seq<char>> {
    if l.len() >= 4 && l.subrange(0, 4) == open_prefix() {
        Some(l.subrange(4, l.len() as int))
    } else {
        None
    }
}

/// The text and date of a done-item line, if `l` has that shape.
pub open spec fn parse_done(l: Seq<char>) -> Option<(Seq<char>, Seq<char>)> {
    if l.len() >= 5 && l.subrange(0, 5) == done_prefix() {
        match pipe_pos(l, 5) {
            Some(p) => if p + 2 <= l.len() && l[p + 1] == ' ' {
                Some((l.subrange(p + 2, l.len() as int), l.subrange(5, p)))
            } else {
                None
            },
            None => None,
        }
    } else {
        None
    }
}

/// Texts of the open items a sequence of lines describes, in order;
/// lines of any other shape are passed over.
pub open spec fn loaded_todos(lines: Seq<Seq<char>>) -> Seq<Seq<char>>
    decreases lines.len(),
{
    if lines.len() == 0 {
        Seq::empty()
    } else {
        let rest = loaded_todos(lines.drop_last());
        match parse_open(lines.last()) {
            Some(t) => rest.push(t),
            None => rest,
        }
    }
}

/// Texts of the done items a sequence of lines describes, in order.
pub open spec fn loaded_done_texts(lines: Seq<Seq<char>>) -> Seq<Seq<char>>
    decreases lines.len(),
{
    if lines.len() == 0 {
        Seq::empty()
    } else {
        let rest = loaded_done_texts(lines.drop_last());
        if parse_open(lines.last()) is None {
            match parse_done(lines.last()) {
                Some(td) => rest.push(td.0),
                None => rest,
            }
        } else {
            rest
        }
    }
}

/// Dates of the done items a sequence of lines describes, in order.
pub open spec fn loaded_done_dates(lines: Seq<Seq<char>>) -> Seq<Seq<char>>
    decreases lines.len(),
{
    if lines.len() == 0 {
        Seq::empty()
    } else {
        let rest = loaded_done_dates(lines.drop_last());
        if parse_open(lines.last()) is None {
            match parse_done(lines.last()) {
                Some(td) => rest.push(td.1),
                None => rest,
            }
        } else {
            rest
        }
    }
}

/// The lines that describe the given collections: open items first, done
/// items after them.
pub open spec fn saved_lines(
    ot: Seq<Seq<char>>,
    dt: Seq<Seq<char>>,
    dd: Seq<Seq<char>>,
) -> Seq<Seq<char>> {
    Seq::new(ot.len(), |i: int| open_line(ot[i])) + Seq::new(
        dt.len(),
        |i: int| done_line(dt[i], dd[i]),
    )
}

pub open spec fn lines_view(v: Seq<Vec<char>>) -> Seq<Seq<char>> {
    v.map_values(|l: Vec<char>| l@)
}

proof fn lemma_parse_open_line(t: Seq<char>)
    ensures
        parse_open(open_line(t)) == Some(t),
        parse_done(open_line(t)) is None,
{
    let l = open_line(t);
    assert(l.subrange(0, 4) =~= open_prefix());
    assert(l.subrange(4, l.len() as int) =~= t);
    if l.len() >= 5 && l.subrange(0, 5) == done_prefix() {
        assert(l.subrange(0, 5)[1] == ' ');
        assert(done_prefix()[1] == 'X');
        assert(false);
    }
}

proof fn lemma_parse_done_line(t: Seq<char>, d: Seq<char>)
    requires
        ok_date(d),
    ensures
        parse_open(done_line(t, d)) is None,
        parse_done(done_line(t, d)) == Some((t, d)),
{
    let l = done_line(t, d);
    if l.len() >= 4 && l.subrange(0, 4) == open_prefix() {
        assert(l.subrange(0, 4)[1] == 'X');
        assert(open_prefix()[1] == ' ');
        assert(false);
    }
    assert(l.subrange(0, 5) =~= done_prefix());
    let p = 5 + d.len() as int;
    assert(l[p] == '|');
    assert forall|k: int| 5 <= k < p implies l[k] != '|' by {
        assert(l[k] == d[k - 5]);
    }
    lemma_pipe_pos_found(l, 5, p);
    assert(l[p + 1] == ' ');
    assert(l.subrange(p + 2, l.len() as int) =~= t);
    assert(l.subrange(5, p) =~= d);
}

/// Law: collections written with `saved_lines` read back exactly with the
/// `loaded_*` functions — the on-disk form loses nothing, texts and dates
/// alike, empty ones included.
pub proof fn lemma_save_load_round_trip(ot: Seq<Seq<char>>, dt: Seq<Seq<char>>, dd: Seq<Seq<char>>)
    requires
        dt.len() == dd.len(),
        all_ok_date(dd),
    ensures
        loaded_todos(saved_lines(ot, dt, dd)) == ot,
        loaded_done_texts(saved_lines(ot, dt, dd)) == dt,
        loaded_done_dates(saved_lines(ot, dt, dd)) == dd,
    decreases ot.len() + dt.len(),
{
    let s = saved_lines(ot, dt, dd);
    if dt.len() > 0 {
        let s0 = saved_lines(ot, dt.drop_last(), dd.drop_last());
        assert(s =~= s0.push(done_line(dt.last(), dd.last())));
        assert(s.drop_last() =~= s0);
        lemma_parse_done_line(dt.last(), dd.last());
        lemma_save_load_round_trip(ot, dt.drop_last(), dd.drop_last());
        assert(loaded_todos(s) == ot);
        assert(loaded_done_texts(s) =~= dt);
        assert(loaded_done_dates(s) =~= dd);
    } else if ot.len() > 0 {
        let s0 = saved_lines(ot.drop_last(), dt, dd);
        assert(s =~= s0.push(open_line(ot.last())));
        assert(s.drop_last() =~= s0);
        lemma_parse_open_line(ot.last());
        lemma_save_load_round_trip(ot.drop_last(), dt, dd);
        assert(loaded_todos(s) =~= ot);
        assert(loaded_done_texts(s) == dt);
        assert(loaded_done_dates(s) == dd);
    } else {
        assert(s =~= Seq::<Seq<char>>::empty());
        assert(loaded_todos(s) =~= ot);
        assert(loaded_done_texts(s) =~= dt);
        assert(loaded_done_dates(s) =~= dd);
    }
}

fn append_range(dst: &mut Vec<char>, src: &Vec<char>, from: usize, to: usize)
    requires
        from <= to <= src@.len(),
    ensures
        final(dst)@ == old(dst)@ + src@.subrange(from as int, to as int),
{
    let mut j: usize = from;
    while j < to
        invariant
            from <= j <= to <= src@.len(),
            dst@ == old(dst)@ + src@.subrange(from as int, j as int),
        decreases to - j,
    {
        dst.push(src[j]);
        proof {
            assert(old(dst)@ + src@.subrange(from as int, j as int + 1) =~= (old(dst)@
                + src@.subrange(from as int, j as int)).push(src@[j as int]));
        }
        j = j + 1;
    }
}

/// Render both collections as lines, open items first.
pub fn save_lines(todos: &Vec<TodoItem>, dones: &Vec<DoneItem>) -> (r: Vec<Vec<char>>)
    ensures
        lines_view(r@) == saved_lines(texts_of(todos@), dtexts_of(dones@), ddates_of(dones@)),
{
    let ghost ot = texts_of(todos@);
    let ghost dt = dtexts_of(dones@);
    let ghost dd = ddates_of(dones@);
    let mut r: Vec<Vec<char>> = Vec::new();
    let mut i: usize = 0;
    while i < todos.len()
        invariant
            i <= todos@.len(),
            ot == texts_of(todos@),
            r@.len() == i,
            forall|k: int| 0 <= k < i ==> #[trigger] r@[k]@ == open_line(ot[k]),
        decreases todos@.len() - i,
    {
        let mut line: Vec<char> = Vec::new();
        line.push('[');
        line.push(' ');
        line.push(']');
        line.push(' ');
        let n = todos[i].text.len();
        append_range(&mut line, &todos[i].text, 0, n);
        proof {
            assert(line@ =~= open_line(ot[i as int]));
        }
        r.push(line);
        i = i + 1;
    }
    let mut j: usize = 0;
    while j < dones.len()
        invariant
            j <= dones@.len(),
            ot == texts_of(todos@),
            dt == dtexts_of(dones@),
            dd == ddates_of(dones@),
            r@.len() == ot.len() + j,
            forall|k: int| 0 <= k < ot.len() ==> #[trigger] r@[k]@ == open_line(ot[k]),
            forall|k: int|
                0 <= k < j ==> #[trigger] r@[ot.len() + k]@ == done_line(dt[k], dd[k]),
        decreases dones@.len() - j,
    {
        let mut line: Vec<char> = Vec::new();
        line.push('[');
        line.push('X');
        line.push(']');
        line.push(' ');
        line.push('|');
        let nd = dones[j].date.len();
        append_range(&mut line, &dones[j].date, 0, nd);
        line.push('|');
        line.push(' ');
        let nt = dones[j].text.len();
        append_range(&mut line, &dones[j].text, 0, nt);
        proof {
            assert(line@ =~= done_line(dt[j as int], dd[j as int]));
        }
        r.push(line);
        j = j + 1;
    }
    proof {
        assert forall|k: int| 0 <= k < r@.len() implies lines_view(r@)[k] == saved_lines(
            ot,
            dt,
            dd,
        )[k] by {
            if k < ot.len() {
                assert(r@[k]@ == open_line(ot[k]));
            } else {
                assert(r@[ot.len() + (k - ot.len())]@ == done_line(
                    dt[k - ot.len()],
                    dd[k - ot.len()],
                ));
            }
        }
        assert(lines_view(r@) =~= saved_lines(ot, dt, dd));
    }
    r
}

enum Parsed {
    Open(Vec<char>),
    Done(Vec<char>, Vec<char>),
    Bad,
}

fn parse_line(l: &Vec<char>) -> (r: Parsed)
    requires
        ok_text(l@),
    ensures
        (match r {
            Parsed::Open(t) => parse_open(l@) == Some(t@) && ok_text(t@),
            Parsed::Done(t, d) => parse_open(l@) is None && parse_done(l@) == Some((t@, d@))
                && ok_text(t@) && ok_date(d@),
            Parsed::Bad => parse_open(l@) is None && parse_done(l@) is None,
        }),
{
    if l.len() >= 4 && l[0] == '[' && l[1] == ' ' && l[2] == ']' && l[3] == ' ' {
        proof {
            assert(l@.subrange(0, 4) =~= open_prefix());
        }
        let mut t: Vec<char> = Vec::new();
        let n = l.len();
        append_range(&mut t, l, 4, n);
        proof {
            assert(t@ =~= l@.subrange(4, l@.len() as int));
        }
        Parsed::Open(t)
    } else if l.len() >= 5 && l[0] == '[' && l[1] == 'X' && l[2] == ']' && l[3] == ' ' && l[4]
        == '|' {
        proof {
            if l@.len() >= 4 && l@.subrange(0, 4) == open_prefix() {
                assert(l@.subrange(0, 4)[1] == ' ');
                assert(false);
            }
            assert(l@.subrange(0, 5) =~= done_prefix());
        }
        let mut p: usize = 5;
        while p < l.len() && l[p] != '|'
            invariant
                5 <= p <= l@.len(),
                forall|k: int| 5 <= k < p ==> l@[k] != '|',
            decreases l@.len() - p,
        {
            p = p + 1;
        }
        if p < l.len() {
            proof {
                lemma_pipe_pos_found(l@, 5, p as int);
            }
            if p + 1 < l.len() && l[p + 1] == ' ' {
                let mut d: Vec<char> = Vec::new();
                append_range(&mut d, l, 5, p);
                let mut t: Vec<char> = Vec::new();
                let n = l.len();
                append_range(&mut t, l, p + 2, n);
                proof {
                    assert(d@ =~= l@.subrange(5, p as int));
                    assert(t@ =~= l@.subrange(p as int + 2, l@.len() as int));
                }
                Parsed::Done(t, d)
            } else {
                Parsed::Bad
            }
        } else {
            proof {
                lemma_pipe_pos_none(l@, 5);
            }
            Parsed::Bad
        }
    } else {
        proof {
            if l@.len() >= 4 && l@.subrange(0, 4) == open_prefix() {
                assert(l@[0] == open_prefix()[0]);
                assert(l@[1] == open_prefix()[1]);
                assert(l@[2] == open_prefix()[2]);
                assert(l@[3] == open_prefix()[3]);
                assert(false);
            }
            if l@.len() >= 5 && l@.subrange(0, 5) == done_prefix() {
                assert(l@[0] == done_prefix()[0]);
                assert(l@[1] == done_prefix()[1]);
                assert(l@[2] == done_prefix()[2]);
                assert(l@[3] == done_prefix()[3]);
                assert(l@[4] == done_prefix()[4]);
                assert(false);
            }
        }
        Parsed::Bad
    }
}

/// Read collections back from lines; lines of neither shape are passed
/// over, so a damaged file yields what can still be read.
pub fn load_lines(lines: &Vec<Vec<char>>) -> (r: (Vec<TodoItem>, Vec<DoneItem>))
    requires
        all_ok_text(lines_view(lines@)),
    ensures
        texts_of(r.0@) == loaded_todos(lines_view(lines@)),
        dtexts_of(r.1@) == loaded_done_texts(lines_view(lines@)),
        ddates_of(r.1@) == loaded_done_dates(lines_view(lines@)),
        todos_ok(r.0@),
        dones_ok(r.1@),
{
    let ghost lv = lines_view(lines@);
    let mut todos: Vec<TodoItem> = Vec::new();
    let mut dones: Vec<DoneItem> = Vec::new();
    let mut i: usize = 0;
    while i < lines.len()
        invariant
            i <= lines@.len(),
            lv == lines_view(lines@),
            all_ok_text(lv),
            texts_of(todos@) == loaded_todos(lv.take(i as int)),
            dtexts_of(dones@) == loaded_done_texts(lv.take(i as int)),
            ddates_of(dones@) == loaded_done_dates(lv.take(i as int)),
            todos_ok(todos@),
            dones_ok(dones@),
        decreases lines@.len() - i,
    {
        proof {
            assert(lv[i as int] == lines@[i as int]@);
            assert(ok_text(lv[i as int]));
            assert(lv.take(i as int + 1).drop_last() =~= lv.take(i as int));
            assert(lv.take(i as int + 1).last() == lv[i as int]);
        }
        match parse_line(&lines[i]) {
            Parsed::Open(t) => {
                let ghost tv = t@;
                let ghost pre = texts_of(todos@);
                todos.push(TodoItem { text: t });
                proof {
                    assert(texts_of(todos@) =~= pre.push(tv));
                    lemma_ok_text_push(pre, tv);
                }
            },
            Parsed::Done(t, d) => {
                let ghost tv = t@;
                let ghost dv = d@;
                let ghost pret = dtexts_of(dones@);
                let ghost pred = ddates_of(dones@);
                dones.push(DoneItem { text: t, date: d });
                proof {
                    assert(dtexts_of(dones@) =~= pret.push(tv));
                    assert(ddates_of(dones@) =~= pred.push(dv));
                    lemma_ok_text_push(pret, tv);
                    lemma_ok_date_push(pred, dv);
                }
            },
            Parsed::Bad => {},
        }
        i = i + 1;
    }
    proof {
        assert(lv.take(lines@.len() as int) =~= lv);
    }
    (todos, dones)
}

} // verus!
