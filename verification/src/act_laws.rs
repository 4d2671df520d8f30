//! What actions, animations, frames, launches and caches promise.
use crate::ask::{answer_in, AskView, OutView, Topic};
use crate::binding::Scope;
use crate::entry::AppEntry;
use crate::freq::{key_of, launches, one_more, total, word_len};
use crate::frontend::UiKey;
use crate::modes::{are_programs, found_by_name, is_program, min_len, programs_found};
use crate::motion::{
    image_path, motion_due, motion_key, prop_named, start_of, synced, ImpulseClock, Known, Prop,
    Start,
};
use crate::node::ActionView;
use crate::path::{below, file_name_of};
use crate::place::{
    action_of, action_parts, baked, comma_from, delay_of, finite, kept_points, pair_items, ItemView,
};
use crate::rank_laws::ranking_lists_every_match;
use crate::ransom::bare_name;
use crate::search::{
    last_of_each, match_score, name_scores, noticed, ranked, relevant, rested, Debouncer,
    FileChange,
};
use crate::surface::{
    edge_of, frame_step, handed_back, handed_out, layer_of, named_key, swapped, timeout_of, wake_of,
    Activity, BufferPair, Edge, FrameStep,
};
use crate::text::{
    has_prefix, index_or_len, lemma_index_or_len, signed_value, trimmed, unsigned_value, white,
};
use crate::text_laws::{tight, tight_texts_stay};
use crate::theme::{AnimateDef, DelaySpec, NodeDef};
use vstd::prelude::*;

verus! {

// ---------------------------------------------------------------------------
// Actions
// ---------------------------------------------------------------------------

/// An action is a name, or a name with an argument in parentheses.
pub proof fn actions_are_parted(name: Seq<char>, arg: Seq<char>)
    requires
        tight(name),
        name.len() > 0,
        !name.contains('('),
        tight(arg),
    ensures
        action_parts(name) == (name, None::<Seq<char>>),
        action_parts(name + seq!['('] + arg + seq![')']) == (name, Some(arg)),
{
    tight_texts_stay(name);
    tight_texts_stay(arg);
    lemma_index_or_len(name, '(');
    let t = name + seq!['('] + arg + seq![')'];
    let n = name.len() as int;
    assert(t[0] == name[0] && t.last() == ')');
    tight_texts_stay(t);
    lemma_index_or_len(t, '(');
    let k = index_or_len(t, '(') as int;
    assert(t[n] == '(');
    if k < n {
        assert(t[k] == name[k]);
    }
    assert(t.take(n) =~= name);
    assert(t.subrange(n + 1, t.len() - 1) =~= arg);
}

/// Actions go by their names: two for launching, one for selecting, two for moving,
/// two for the query and three for closing. Anything else does nothing.
pub proof fn actions_go_by_their_names(d: NodeDef, raw: String, label: Seq<char>, v: Seq<Seq<char>>, c: Scope)
    requires
        d.on_click == Some(raw),
        action_of(d, label, v, c) is Done,
    ensures
        ({
            let name = action_parts(raw@).0;
            let a = action_of(d, label, v, c)->Done_0;
            &&& name == "activate"@ || name == "launch"@ ==> a is Some && a->0 is Activate
            &&& name == "select"@ ==> a is Some && a->0 is Select
            &&& name == "move_selection"@ || name == "move"@ ==> a is Some && a->0 is Move
            &&& name == "set_query"@ || name == "query"@ ==> a is Some && a->0 is SetQuery
            &&& name == "close"@ || name == "exit"@ || name == "quit"@ ==> a == Some(ActionView::Close)
            &&& name != "activate"@ && name != "launch"@ && name != "select"@ && name
                != "move_selection"@ && name != "move"@ && name != "set_query"@ && name != "query"@ && name
                != "close"@ && name != "exit"@ && name != "quit"@ ==> a is None
        }),
{
    reveal_strlit("activate");
    reveal_strlit("launch");
    reveal_strlit("select");
    reveal_strlit("move_selection");
    reveal_strlit("move");
    reveal_strlit("set_query");
    reveal_strlit("query");
    reveal_strlit("close");
    reveal_strlit("exit");
    reveal_strlit("quit");
    assert("activate"@.len() == 8 && "launch"@.len() == 6 && "select"@.len() == 6
        && "move_selection"@.len() == 14 && "move"@.len() == 4 && "set_query"@.len() == 9
        && "query"@.len() == 5 && "close"@.len() == 5 && "exit"@.len() == 4 && "quit"@.len() == 4);
    assert("launch"@[0] == 'l' && "select"@[0] == 's' && "move"@[0] == 'm' && "query"@[0] == 'q'
        && "close"@[0] == 'c' && "exit"@[0] == 'e' && "quit"@[0] == 'q');
}

/// The argument of a query action is the query.
pub proof fn query_actions_carry_their_text(d: NodeDef, raw: String, label: Seq<char>, v: Seq<Seq<char>>, c: Scope)
    requires
        d.on_click == Some(raw),
        action_parts(raw@).0 == "query"@,
        v.len() == 3,
        action_of(d, label, v, c) is Done,
    ensures
        action_of(d, label, v, c)->Done_0 == Some(ActionView::SetQuery(v[2])),
{
    reveal_strlit("activate");
    reveal_strlit("launch");
    reveal_strlit("select");
    reveal_strlit("move_selection");
    reveal_strlit("move");
    reveal_strlit("query");
    assert("activate"@.len() == 8 && "launch"@.len() == 6 && "select"@.len() == 6
        && "move_selection"@.len() == 14 && "move"@.len() == 4 && "query"@.len() == 5);
}

// ---------------------------------------------------------------------------
// Points and animations
// ---------------------------------------------------------------------------

/// A vertex is kept exactly if both of its coordinates are finite, in order.
pub proof fn finite_vertices_are_kept(v: Seq<Seq<char>>, x: Seq<char>, y: Seq<char>, c: Scope)
    requires
        kept_points(v.push(x).push(y), c) is Done,
        finite(x, c) is Done,
        finite(y, c) is Done,
    ensures
        kept_points(v, c) is Done,
        finite(x, c)->Done_0 && finite(y, c)->Done_0 ==> kept_points(v.push(x).push(y), c)->Done_0
            == kept_points(v, c)->Done_0.push((x, y)),
        !finite(x, c)->Done_0 || !finite(y, c)->Done_0 ==> kept_points(v.push(x).push(y), c)->Done_0
            == kept_points(v, c)->Done_0,
{
    let w = v.push(x).push(y);
    assert(w.take(w.len() - 2) =~= v);
    assert(w[w.len() - 2] == x && w[w.len() - 1] == y);
}

/// A vertex is its two coordinates with a comma between them.
pub proof fn vertices_are_pairs(x: Seq<char>, y: Seq<char>)
    requires
        tight(x),
        tight(y),
        x.len() > 0,
        y.len() > 0,
        forall|i: int|
            0 <= i < x.len() ==> #[trigger] x[i] != ',' && x[i] != '(' && x[i] != ')' && x[i] != '\''
                && x[i] != '"',
    ensures
        pair_items(x + seq![','] + y) == seq![
            ItemView::Figure(x, "NaN"@),
            ItemView::Figure(y, "NaN"@),
        ],
{
    let p = x + seq![','] + y;
    assert(p[0] == x[0] && p.last() == y.last());
    tight_texts_stay(p);
    tight_texts_stay(x);
    tight_texts_stay(y);
    let k = x.len() as int;
    lemma_comma(p, 0, k);
    assert(p.take(k) =~= x);
    assert(p.skip(k + 1) =~= y);
}

proof fn lemma_comma(p: Seq<char>, i: int, k: int)
    requires
        0 <= i <= k < p.len(),
        p[k] == ',',
        forall|j: int|
            i <= j < k ==> #[trigger] p[j] != ',' && p[j] != '(' && p[j] != ')' && p[j] != '\'' && p[j]
                != '"',
    ensures
        comma_from(p, i, 0) == Some(k),
    decreases k - i,
{
    if i < k {
        assert(p[i] != ',');
        lemma_comma(p, i + 1, k);
    }
}

/// Delays add up, as far as a delay can be.
pub proof fn delays_add_up(a: AnimateDef, v: Seq<char>, c: Scope)
    ensures
        a.delay is None ==> delay_of(a, v, c) == OutView::Done(a.delay_ms, Seq::empty()),
        a.delay matches Some(DelaySpec::Fixed(x)) ==> (delay_of(a, v, c) matches OutView::Done(d, _) && (
        a.delay_ms + x <= u32::MAX ==> d == a.delay_ms + x) && (a.delay_ms + x > u32::MAX ==> d
            == u32::MAX)),
{
}

/// Every animation of a node is there, in order, with its property, its length and its
/// easing.
pub proof fn animations_are_kept(l: Seq<AnimateDef>, v: Seq<Seq<char>>, c: Scope, i: int)
    requires
        baked(l, v, c) is Done,
        0 <= i < l.len(),
    ensures
        ({
            let m = baked(l, v, c)->Done_0;
            &&& m.len() == l.len()
            &&& m[i].property == l[i].property@
            &&& m[i].duration_ms == l[i].duration_ms
            &&& m[i].easing == l[i].easing@
            &&& delay_of(l[i], v[2 * i], c) matches OutView::Done(d, _) && m[i].delay_ms == d
            &&& l[i].from is Some ==> m[i].from == Some(v[2 * i + 1])
            &&& l[i].from is None ==> m[i].from is None
        }),
    decreases l.len(),
{
    let d = l.drop_last();
    let b = baked(d, v, c)->Done_0;
    let m = baked(l, v, c)->Done_0;
    lemma_baked_len(d, v, c);
    if i < d.len() {
        animations_are_kept(d, v, c, i);
        assert(m[i] == b[i]);
        assert(d[i] == l[i]);
    }
}

proof fn lemma_baked_len(l: Seq<AnimateDef>, v: Seq<Seq<char>>, c: Scope)
    requires
        baked(l, v, c) is Done,
    ensures
        baked(l, v, c)->Done_0.len() == l.len(),
    decreases l.len(),
{
    if l.len() > 0 {
        lemma_baked_len(l.drop_last(), v, c);
    }
}

/// A motion begins where the value is: at the running motion's value, else at the last
/// one, else at the start value; it is due where the target moved far away, or the
/// value first appears with a start value.
pub proof fn motions_begin_where_the_value_is(t: Known)
    ensures
        t.running is Some ==> start_of(t) == Start::Running && (motion_due(t) <==> t.running == Some(
            true,
        )),
        t.running is None && t.current is Some ==> start_of(t) == Start::Current && (motion_due(t)
            <==> t.current == Some(true)),
        t.running is None && t.current is None ==> (motion_due(t) <==> t.has_from) && (t.has_from
            ==> start_of(t) == Start::From) && (!t.has_from ==> start_of(t) == Start::Target),
{
}

/// An animation is replayed by its trigger and by nothing else: its key changes with
/// the number of that event, and stays with the number of the other.
pub proof fn triggers_replay(id: Seq<char>, property: Seq<char>, a: u32, b: u32, n: u32)
    ensures
        motion_key(id, property, Some("select"@), a, n) == motion_key(id, property, Some("select"@), a, b),
        motion_key(id, property, Some("type"@), n, b) == motion_key(id, property, Some("type"@), a, b),
        motion_key(id, property, None, a, b) == motion_key(id, property, None, n, n),
        a != n ==> motion_key(id, property, Some("select"@), a, b) != motion_key(
            id,
            property,
            Some("select"@),
            n,
            b,
        ),
        b != n ==> motion_key(id, property, Some("type"@), a, b) != motion_key(
            id,
            property,
            Some("type"@),
            a,
            n,
        ),
{
    reveal_strlit("select");
    reveal_strlit("type");
    assert("select"@.len() == 6 && "type"@.len() == 4);
    let front = id + ":"@ + property;
    lemma_tail_differs(front, "#s"@, a as nat, n as nat);
    lemma_tail_differs(front, "#t"@, b as nat, n as nat);
}

proof fn lemma_tail_differs(front: Seq<char>, mark: Seq<char>, a: nat, b: nat)
    ensures
        a != b ==> front + (mark + crate::text::decimal(a)) != front + (mark + crate::text::decimal(b)),
{
    crate::text_laws::numerals_are_read_back(a);
    crate::text_laws::numerals_are_read_back(b);
    let x = front + (mark + crate::text::decimal(a));
    let y = front + (mark + crate::text::decimal(b));
    if x == y {
        let k = (front.len() + mark.len()) as int;
        assert(x.skip(k) =~= crate::text::decimal(a));
        assert(y.skip(k) =~= crate::text::decimal(b));
    }
}

/// Looking twice at the same state changes nothing the second time.
pub proof fn only_changes_are_felt(
    a: ImpulseClock,
    selected: usize,
    query: Seq<char>,
    t: u64,
    b: ImpulseClock,
    later: u64,
    c: ImpulseClock,
)
    requires
        synced(a, selected, query, t, b),
        synced(b, selected, query, later, c),
    ensures
        c.select_at == b.select_at,
        c.type_at == b.type_at,
        c.select_gen == b.select_gen,
        c.type_gen == b.type_gen,
        a.started && a.last_sel != selected ==> b.select_at == t && b.select_gen != a.select_gen,
        a.started && a.last_sel == selected ==> b.select_at == a.select_at,
        a.started && a.last_query@ != query ==> b.type_at == t && b.type_gen != a.type_gen,
        a.last_query@ == query ==> b.type_at == a.type_at,
{
}

// ---------------------------------------------------------------------------
// Frames
// ---------------------------------------------------------------------------

/// Input is drawn at once, whatever the compositor says; a passed deadline ends it;
/// where nothing moves, nothing is drawn.
pub proof fn frames_are_drawn_for_a_reason(a: Activity, ready: bool, since: Option<u64>)
    ensures
        frame_step(a, true, ready, since) == FrameStep::Finish,
        a.dirty ==> frame_step(a, false, ready, since) == FrameStep::Draw,
        !a.dirty && !ready ==> frame_step(a, false, ready, since) == FrameStep::Wait,
        !a.dirty && !a.animating && !a.uses_time && !a.impact ==> frame_step(a, false, ready, since)
            == FrameStep::Wait,
        ready && (a.animating || a.impact) ==> frame_step(a, false, ready, since) == FrameStep::Draw,
{
}

/// Motion wants a frame every 16 milliseconds, the clock alone one every 50 unless the
/// theme sets a rate, and the closing deadline a look every 250.
pub proof fn frames_come_in_time(a: Activity)
    ensures
        a.animating || a.impact ==> timeout_of(a) == 16 && wake_of(a) == Some(16int),
        !a.animating && !a.impact && a.uses_time && a.time_hz is None ==> timeout_of(a) == 50 && wake_of(a)
            == Some(45int),
        !a.animating && !a.impact && a.uses_time && a.time_hz == Some(20u32) ==> timeout_of(a) == 50,
        !a.animating && !a.impact && !a.uses_time && !a.dirty && a.auto_close_pending ==> timeout_of(a)
            == 250 && wake_of(a) == Some(250int),
        !a.animating && !a.impact && !a.uses_time && a.dirty ==> timeout_of(a) == 0,
        !a.animating && !a.impact && !a.uses_time && !a.dirty && !a.auto_close_pending ==> timeout_of(a)
            == -1 && wake_of(a) is None,
{
    assert(50int * 9 / 10 == 45);
    assert(1000int / 20 == 50);
}

/// Red and blue change places in every pixel; green and alpha stay.
pub proof fn red_and_blue_change_places(px: Seq<u8>, k: int)
    requires
        0 <= k,
        4 * k + 4 <= px.len(),
    ensures
        swapped(px).len() == px.len() - px.len() % 4,
        swapped(px)[4 * k] == px[4 * k + 2],
        swapped(px)[4 * k + 1] == px[4 * k + 1],
        swapped(px)[4 * k + 2] == px[4 * k],
        swapped(px)[4 * k + 3] == px[4 * k + 3],
{
    assert((4 * k) % 4 == 0 && (4 * k + 1) % 4 == 1 && (4 * k + 2) % 4 == 2 && (4 * k + 3) % 4 == 3);
}

/// The two buffers take turns, and none is drawn on while the compositor holds it.
pub proof fn buffers_take_turns(
    a: BufferPair,
    i: usize,
    b: BufferPair,
    j: usize,
    c: BufferPair,
    r: Option<usize>,
    d: BufferPair,
)
    requires
        handed_out(a, Some(i), b),
        handed_out(b, Some(j), c),
        handed_out(c, r, d),
    ensures
        i != j,
        i <= 1 && j <= 1,
        r is None,
        d == c,
{
}

/// A buffer that came back can be drawn on again.
pub proof fn buffers_come_back(a: BufferPair, i: usize, b: BufferPair)
    requires
        handed_back(a, i, b),
        i <= 1,
    ensures
        !b.busy(i as int),
        b.busy(1 - i) == a.busy(1 - i),
        b.second_next == a.second_next,
{
    assert(b.busy(i as int) == (a.busy(i as int) && i as int != i));
}

// ---------------------------------------------------------------------------
// Launches
// ---------------------------------------------------------------------------

/// A launch counts one.
pub proof fn launches_count_one(n: u64)
    ensures
        n < u64::MAX ==> one_more(n) == n + 1,
        n == u64::MAX ==> one_more(n) == n,
{
}

/// The launches of a command are the sum of what is recorded under its key, in
/// whatever form it was recorded.
pub proof fn recorded_launches_add_up(
    a: Seq<(String, u64)>,
    b: Seq<(String, u64)>,
    key: Seq<char>,
    e: (String, u64),
)
    ensures
        total(a + b, key) == total(a, key) + total(b, key),
        key_of(e.0@) == key ==> total(seq![e], key) == e.1,
        key_of(e.0@) != key ==> total(seq![e], key) == 0,
    decreases b.len(),
{
    assert(seq![e].drop_last() =~= Seq::empty());
    assert(total(seq![e].drop_last(), key) == 0);
    if b.len() == 0 {
        assert(a + b =~= a);
    } else {
        recorded_launches_add_up(a, b.drop_last(), key, e);
        assert((a + b).drop_last() =~= a + b.drop_last());
    }
}

/// The number of launches is that sum, up to the largest count there is.
pub proof fn launches_are_the_sum(c: Seq<(String, u64)>, command: Seq<char>)
    ensures
        total(c, key_of(command)) <= u64::MAX ==> launches(c, command) == total(c, key_of(command)),
        total(c, key_of(command)) > u64::MAX ==> launches(c, command) == u64::MAX,
{
}

/// The arguments of a command do not count for its key.
pub proof fn arguments_do_not_count(program: Seq<char>, sp: char, rest: Seq<char>)
    requires
        program.len() > 0,
        forall|i: int| 0 <= i < program.len() ==> !white(#[trigger] program[i]),
        white(sp),
        !has_prefix(program + seq![sp] + rest, "env "@),
        file_name_of(program) is Some,
    ensures
        key_of(program + seq![sp] + rest) == key_of(program),
        key_of(program) == file_name_of(program)->0,
{
    reveal_strlit("env ");
    let s = program + seq![sp] + rest;
    let n = program.len() as int;
    assert(!white(program[0]));
    assert(s[0] == program[0]);
    lemma_word_ends(s, n);
    assert(s.take(n) =~= program);
    lemma_word_ends(program, n);
    assert(program.take(n) =~= program);
    if has_prefix(program, "env "@) {
        assert(program.take(4)[3] == program[3]);
        assert("env "@[3] == ' ');
        assert(!white(program[3]));
    }
}

proof fn lemma_word_ends(s: Seq<char>, n: int)
    requires
        0 <= n <= s.len(),
        forall|i: int| 0 <= i < n ==> !white(#[trigger] s[i]),
        n < s.len() ==> white(s[n]),
    ensures
        word_len(s) == n,
    decreases n,
{
    if n > 0 {
        assert(!white(s[0]));
        let t = s.skip(1);
        assert forall|i: int| 0 <= i < n - 1 implies !white(#[trigger] t[i]) by {
            assert(t[i] == s[i + 1]);
        }
        lemma_word_ends(t, n - 1);
    }
}

/// A command that sets an environment is its own key.
pub proof fn environments_count(rest: Seq<char>)
    ensures
        key_of("env "@ + rest) == "env "@ + rest,
{
    let s = "env "@ + rest;
    assert(s.take("env "@.len() as int) =~= "env "@);
}

// ---------------------------------------------------------------------------
// The cache
// ---------------------------------------------------------------------------

/// Of several entries with one id the last is kept, and the others go.
pub proof fn later_entries_replace_earlier_ones(l: Seq<AppEntry>, k: int)
    requires
        0 <= k < l.len(),
    ensures
        (forall|j: int| k < j < l.len() ==> (#[trigger] l[j]).id@ != l[k].id@) ==> last_of_each(
            l,
            l.len(),
        ).contains(l[k]),
        forall|i: int|
            0 <= i < last_of_each(l, l.len()).len() && (#[trigger] last_of_each(l, l.len())[i]).id@
                == l[k].id@ ==> exists|m: int|
                k <= m < l.len() && last_of_each(l, l.len())[i] == #[trigger] l[m] && (forall|j: int|
                    m < j < l.len() ==> (#[trigger] l[j]).id@ != l[m].id@),
{
    let r = last_of_each(l, l.len());
    if forall|j: int| k < j < l.len() ==> (#[trigger] l[j]).id@ != l[k].id@ {
        lemma_kept(l, l.len(), k);
    }
    assert forall|i: int| 0 <= i < r.len() && (#[trigger] r[i]).id@ == l[k].id@ implies exists|m: int|
        k <= m < l.len() && r[i] == #[trigger] l[m] && (forall|j: int|
            m < j < l.len() ==> (#[trigger] l[j]).id@ != l[m].id@) by {
        let m = lemma_from(l, l.len(), i);
        if m < k {
            assert(l[k].id@ != l[m].id@);
        }
        assert(r[i] == l[m]);
    }
}

proof fn lemma_kept(l: Seq<AppEntry>, n: nat, k: int)
    requires
        n <= l.len(),
        0 <= k < n,
        forall|j: int| k < j < l.len() ==> (#[trigger] l[j]).id@ != l[k].id@,
    ensures
        last_of_each(l, n).contains(l[k]),
    decreases n,
{
    let p = (n - 1) as nat;
    let b = last_of_each(l, p);
    let r = last_of_each(l, n);
    if k < p {
        lemma_kept(l, p, k);
        let i = choose|i: int| 0 <= i < b.len() && b[i] == l[k];
        assert(r[i] == l[k]);
    } else {
        assert(r[r.len() - 1] == l[k]);
    }
}

proof fn lemma_from(l: Seq<AppEntry>, n: nat, i: int) -> (m: int)
    requires
        n <= l.len(),
        0 <= i < last_of_each(l, n).len(),
    ensures
        0 <= m < n,
        last_of_each(l, n)[i] == l[m],
        forall|j: int| m < j < l.len() ==> (#[trigger] l[j]).id@ != l[m].id@,
    decreases n,
{
    let p = (n - 1) as nat;
    let b = last_of_each(l, p);
    if i < b.len() {
        lemma_from(l, p, i)
    } else {
        p as int
    }
}

/// The cache is rebuilt half a second after the last change that counts, and not
/// before; changes that do not count are not even noticed.
pub proof fn changes_calm_down_first(
    a: Debouncer,
    t: u64,
    b: Debouncer,
    now: u64,
    rebuild: bool,
    c: Debouncer,
)
    requires
        noticed(a, true, t, b),
        rested(b, now, rebuild, c),
    ensures
        rebuild <==> now >= t + 500,
        rebuild ==> !c.pending,
        !rebuild ==> c == b,
        forall|u: u64, d: Debouncer| #[trigger] noticed(b, false, u, d) ==> d == b,
        forall|u: u64, r: bool, d: Debouncer| #[trigger] rested(c, u, r, d) && rebuild ==> !r,
{
}

/// A change counts if it brought, took, renamed or wrote a `.desktop` file.
pub proof fn desktop_files_count(change: FileChange, paths: Seq<String>, i: int)
    requires
        0 <= i < paths.len(),
        crate::path::extension_of(paths[i]@) == Some("desktop"@),
    ensures
        relevant(change, paths) <==> change != FileChange::Other,
{
    assert(crate::search::desktop_path(paths[i]@));
}

/// A change to other files does not count.
pub proof fn other_files_do_not_count(change: FileChange, paths: Seq<String>)
    requires
        forall|i: int|
            0 <= i < paths.len() ==> crate::path::extension_of((#[trigger] paths[i])@) != Some(
                "desktop"@,
            ),
    ensures
        !relevant(change, paths),
{
}

/// Windows and programs are found by their names: every one whose name has a score
/// for the trimmed query, each once and with that score, better ones first.
pub proof fn names_find_every_match(l: Seq<AppEntry>, query: Seq<char>) -> (at: Seq<int>)
    requires
        exists|i: int| 0 <= i < query.len() && !white(#[trigger] query[i]),
    ensures
        at.no_duplicates(),
        forall|k: int|
            at.contains(k) <==> 0 <= k < l.len() && match_score(
                (#[trigger] l[k]).name@,
                trimmed(query),
            ) is Some,
        found_by_name(l, query).len() == at.len(),
        forall|i: int|
            0 <= i < at.len() ==> match_score(l[#[trigger] at[i]].name@, trimmed(query)) == Some(
                found_by_name(l, query)[i].score,
            ) && found_by_name(l, query)[i] == (AppEntry {
                score: found_by_name(l, query)[i].score,
                ..l[at[i]]
            }),
        forall|i: int, j: int|
            0 <= i < j < at.len() ==> found_by_name(l, query)[i].score > found_by_name(l, query)[j].score
                || (found_by_name(l, query)[i].score == found_by_name(l, query)[j].score
                && #[trigger] at[i] < #[trigger] at[j]),
{
    crate::text_laws::blank_texts_vanish(query);
    let q = trimmed(query);
    let scores = name_scores(l, q);
    let at = ranking_lists_every_match(l, scores);
    let r = found_by_name(l, query);
    assert forall|k: int|
        at.contains(k) <==> 0 <= k < l.len() && match_score((#[trigger] l[k]).name@, q) is Some by {
        if 0 <= k < l.len() {
            assert(scores[k] == match_score(l[k].name@, q));
        }
        if at.contains(k) {
            assert(scores[k] is Some);
        }
    }
    assert forall|i: int| 0 <= i < at.len() implies match_score(l[#[trigger] at[i]].name@, q) == Some(
        r[i].score,
    ) && r[i] == (AppEntry { score: r[i].score, ..l[at[i]] }) by {
        assert(at.contains(at[i]));
        assert(scores[at[i]] is Some);
        assert(ranked(l, scores)[i].0 == l[at[i]]);
    }
    assert forall|i: int, j: int| 0 <= i < j < at.len() implies r[i].score > r[j].score || (r[i].score
        == r[j].score && #[trigger] at[i] < #[trigger] at[j]) by {
        assert(at.contains(at[i]) && at.contains(at[j]));
        assert(scores[at[i]] is Some && scores[at[j]] is Some);
        assert(ranked(l, scores)[i].0 == l[at[i]]);
        assert(ranked(l, scores)[j].0 == l[at[j]]);
    }
    at
}

/// At most fifty programs are shown, and those are the best: without a limit they
/// would come first.
pub proof fn the_best_programs_are_shown(names: Seq<Seq<char>>, query: Seq<char>, shown: Seq<AppEntry>)
    requires
        programs_found(names, query, shown),
    ensures
        shown.len() <= 50,
        exists|all: Seq<AppEntry>|
            #[trigger] are_programs(all, names) && shown.len() <= found_by_name(all, query).len() && (
            shown.len() < 50 ==> shown == found_by_name(all, query)) && forall|i: int|
                0 <= i < shown.len() ==> #[trigger] shown[i] == found_by_name(all, query)[i],
{
    let all = choose|all: Seq<AppEntry>|
        #[trigger] are_programs(all, names) && shown == found_by_name(all, query).take(
            min_len(found_by_name(all, query).len(), crate::modes::RUN_LIMIT as nat) as int,
        );
    let m = found_by_name(all, query);
    if m.len() < 50 {
        assert(m.take(m.len() as int) =~= m);
    }
}

/// A program is run by its name, which is also what it is found by.
pub proof fn programs_are_their_names(l: Seq<AppEntry>, names: Seq<Seq<char>>, i: int)
    requires
        are_programs(l, names),
        0 <= i < l.len(),
    ensures
        l.len() == names.len(),
        l[i].name@ == names[i],
        l[i].command@ == names[i],
        l[i].search_text@ == names[i],
{
    assert(is_program(l[i], names[i]));
}

// ---------------------------------------------------------------------------
// Keys and surfaces
// ---------------------------------------------------------------------------

/// The keys that have a name, by the numbers of their symbols.
pub proof fn named_keys(sym: u32)
    ensures
        sym == 65307 ==> named_key(sym) == Some(UiKey::Escape),
        sym == 65293 || sym == 65421 ==> named_key(sym) == Some(UiKey::Enter),
        sym == 65288 ==> named_key(sym) == Some(UiKey::Backspace),
        sym == 65364 || sym == 65433 ==> named_key(sym) == Some(UiKey::ArrowDown),
        sym == 65362 || sym == 65431 ==> named_key(sym) == Some(UiKey::ArrowUp),
        sym == 65360 ==> named_key(sym) == Some(UiKey::Home),
        sym == 65367 ==> named_key(sym) == Some(UiKey::End),
        sym == 65365 ==> named_key(sym) == Some(UiKey::PageUp),
        sym == 65366 ==> named_key(sym) == Some(UiKey::PageDown),
        sym == 65056 ==> named_key(sym) == Some(UiKey::BackTab),
        sym == 65289 ==> named_key(sym) == Some(UiKey::Tab),
        sym < 65056 ==> named_key(sym) is None,
{
}

/// Layers and edges by their names; without a known name a surface lies on top of all,
/// in the middle.
pub proof fn surfaces_have_places(s: Seq<char>)
    ensures
        layer_of("background"@) == 0,
        layer_of("bottom"@) == 1,
        layer_of("top"@) == 2,
        s != "background"@ && s != "bottom"@ && s != "top"@ ==> layer_of(s) == 3 && edge_of(s)
            == Edge::Center,
        edge_of("top"@) == Edge::Top,
        edge_of("bottom"@) == Edge::Bottom,
{
    reveal_strlit("background");
    reveal_strlit("bottom");
    reveal_strlit("top");
    assert("background"@.len() == 10 && "bottom"@.len() == 6 && "top"@.len() == 3);
}

/// The properties that can be animated, by their names.
pub proof fn properties_have_names()
    ensures
        prop_named("x"@) == Some(Prop::X),
        prop_named("y"@) == Some(Prop::Y),
        prop_named("width"@) == Some(Prop::Width),
        prop_named("height"@) == Some(Prop::Height),
        prop_named("opacity"@) == Some(Prop::Opacity),
        prop_named("rotation"@) == Some(Prop::Rotation),
        prop_named("scale"@) == Some(Prop::Scale),
        prop_named("skew"@) == Some(Prop::Skew),
{
    reveal_strlit("x");
    reveal_strlit("y");
    reveal_strlit("width");
    reveal_strlit("height");
    reveal_strlit("opacity");
    reveal_strlit("rotation");
    reveal_strlit("scale");
    reveal_strlit("skew");
    assert("x"@.len() == 1 && "y"@.len() == 1 && "x"@[0] == 'x' && "y"@[0] == 'y' && "width"@.len() == 5
        && "height"@.len() == 6 && "opacity"@.len() == 7 && "rotation"@.len() == 8 && "scale"@.len() == 5
        && "scale"@[0] == 's' && "width"@[0] == 'w' && "skew"@.len() == 4);
}

/// An image lies below the theme's directory unless its path begins at the root.
pub proof fn images_lie_below_the_theme(src: Seq<char>, base: Seq<char>)
    ensures
        bare_name(src).len() > 0 && bare_name(src)[0] == '/' ==> image_path(src, base) == src,
        bare_name(src).len() == 0 || bare_name(src)[0] != '/' ==> image_path(src, base) == below(
            base,
            bare_name(src),
        ),
{
}

/// The row that an action names is the one that the caller cuts its argument to, and its
/// step is too.
pub proof fn actions_name_rows_and_steps(
    d: NodeDef,
    raw: String,
    label: Seq<char>,
    v: Seq<Seq<char>>,
    c: Scope,
    row: Seq<char>,
    step: Seq<char>,
    i: usize,
    k: i32,
)
    requires
        d.on_click == Some(raw),
        v.len() == 3,
        action_of(d, label, v, c) is Done,
        answer_in(
            c.answers.entries@,
            AskView { topic: Topic::Index, a: v[0], b: Seq::empty(), c: Seq::empty() },
        ) == Some(Some(row)),
        unsigned_value(row, usize::MAX as nat) == Some(i as nat),
        answer_in(
            c.answers.entries@,
            AskView { topic: Topic::Delta, a: v[1], b: Seq::empty(), c: Seq::empty() },
        ) == Some(Some(step)),
        signed_value(step) == Some(k as int),
    ensures
        ({
            let name = action_parts(raw@).0;
            let a = action_of(d, label, v, c)->Done_0;
            &&& name == "activate"@ ==> a == Some(ActionView::Activate(Some(i)))
            &&& name == "select"@ ==> a == Some(ActionView::Select(Some(i)))
            &&& name == "move"@ ==> a == Some(ActionView::Move(k))
        }),
{
    actions_go_by_their_names(d, raw, label, v, c);
    reveal_strlit("activate");
    reveal_strlit("launch");
    reveal_strlit("select");
    reveal_strlit("move");
    assert("activate"@.len() == 8 && "launch"@.len() == 6 && "select"@.len() == 6 && "move"@.len() == 4);
    assert("launch"@[0] == 'l' && "select"@[0] == 's');
}

/// A theme's own rate sets the time between frames of the clock, and a frame is drawn when
/// nine tenths of it have passed.
pub proof fn rates_set_the_pace(a: Activity, hz: u32, ms: u64)
    requires
        !a.animating,
        !a.impact,
        !a.dirty,
        a.uses_time,
        a.time_hz == Some(hz),
        hz > 0,
    ensures
        timeout_of(a) == 1000int / (hz as int),
        frame_step(a, false, true, Some(ms)) == FrameStep::Draw <==> ms >= (1000int / (hz as int)) * 9
            / 10,
        frame_step(a, false, true, None) == FrameStep::Draw,
{
}

} // verus!
