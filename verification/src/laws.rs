//! The laws that relate rendering and parsing: a document of the shapes the
//! parser itself produces renders to text that parses back to the same
//! document, rendering is therefore idempotent across a parse, and repeated
//! insertion keeps exactly the last value.

use vstd::prelude::*;
use crate::kv::{has_key, key_index, kv_find, kv_insert, lemma_key_index, lemma_kv_insert_absent,
    lemma_kv_insert_find, unique_keys, valid_key, KvModel};
use crate::parse::{find_closer_at, lemma_find_closer_is, list_items, parse_lines_from,
    ParseOutcome};
use crate::slop::{render_doc, render_entry};
use crate::text::{clean_line, cr_strip, find_char, is_slop_ws, lemma_clean_line_noop,
    lemma_clean_line_shape, lemma_find_char, lemma_find_char_is, lemma_split_lines_safe,
    lemma_split_lines_step, line_safe, split_lines, trim_start};
use crate::value::{join_sep, ValueModel};

verus! {

/// The shape of an entry whose rendered line group parses back to the same
/// entry: a valid key as the parser extracts it (no leading whitespace, not
/// opening a comment), everything on single lines with no trailing carriage
/// return, list items that do not clean to a closer, and no empty list (an
/// empty list renders like a list of one empty item).
pub open spec fn entry_round_trippable(kv: KvModel) -> bool {
    &&& valid_key(kv.0)
    &&& line_safe(kv.0)
    &&& (kv.0.len() > 0 ==> !is_slop_ws(kv.0[0]) && kv.0[0] != '#')
    &&& match kv.1 {
        ValueModel::Str(v) => line_safe(v) && (v.len() > 0 ==> v[v.len() - 1] != '\r'),
        ValueModel::List(items) => items.len() > 0 && (forall|t: int|
            0 <= t < items.len() ==> line_safe(#[trigger] items[t]) && clean_line(items[t])
                != seq!['}'] && (items[t].len() > 0 ==> items[t][items[t].len() - 1] != '\r')),
    }
}

/// A document whose compact rendering parses back to it: entries of
/// round-trippable shape under pairwise distinct keys.
pub open spec fn doc_round_trippable(doc: Seq<KvModel>) -> bool {
    unique_keys(doc) && (forall|i: int|
        0 <= i < doc.len() ==> entry_round_trippable(#[trigger] doc[i]))
}

/// The lines an entry renders to: one `key=value` line for a string entry;
/// an opener, the items, and a closer for a list entry.
pub open spec fn entry_lines(kv: KvModel) -> Seq<Seq<char>> {
    match kv.1 {
        ValueModel::Str(v) => seq![kv.0 + seq!['='] + v],
        ValueModel::List(items) => seq![kv.0 + seq!['{']] + items + seq![seq!['}']],
    }
}

/// The lines a document renders to, in entry order.
pub open spec fn doc_lines(doc: Seq<KvModel>) -> Seq<Seq<char>>
    decreases doc.len(),
{
    if doc.len() == 0 {
        Seq::empty()
    } else {
        entry_lines(doc[0]) + doc_lines(doc.drop_first())
    }
}

/// The text of a family of lines, each terminated by a newline.
pub open spec fn terminate_lines(ls: Seq<Seq<char>>) -> Seq<char>
    decreases ls.len(),
{
    if ls.len() == 0 {
        Seq::empty()
    } else {
        ls[0] + seq!['\n'] + terminate_lines(ls.drop_first())
    }
}

/// Newline-terminated text concatenates over line families.
proof fn lemma_terminate_append(a: Seq<Seq<char>>, b: Seq<Seq<char>>)
    ensures
        terminate_lines(a + b) == terminate_lines(a) + terminate_lines(b),
    decreases a.len(),
{
    if a.len() == 0 {
        assert(a + b =~= b);
        assert(Seq::<char>::empty() + terminate_lines(b) =~= terminate_lines(b));
    } else {
        assert((a + b).drop_first() =~= a.drop_first() + b);
        lemma_terminate_append(a.drop_first(), b);
        assert((a + b)[0] == a[0]);
        assert(a[0] + seq!['\n'] + (terminate_lines(a.drop_first()) + terminate_lines(b)) =~= (a[0]
            + seq!['\n'] + terminate_lines(a.drop_first())) + terminate_lines(b));
    }
}

/// For a non-empty family, joining with newlines and appending one final
/// newline is the newline-terminated text.
proof fn lemma_join_terminate(items: Seq<Seq<char>>)
    requires
        items.len() >= 1,
    ensures
        join_sep(items, seq!['\n']) + seq!['\n'] == terminate_lines(items),
    decreases items.len(),
{
    if items.len() == 1 {
        assert(terminate_lines(items.drop_first()) =~= Seq::<char>::empty());
        assert(items[0] + seq!['\n'] + Seq::<char>::empty() =~= items[0] + seq!['\n']);
    } else {
        lemma_join_terminate(items.drop_first());
        assert((items[0] + seq!['\n'] + join_sep(items.drop_first(), seq!['\n'])) + seq!['\n'] =~= items[0]
            + seq!['\n'] + (join_sep(items.drop_first(), seq!['\n']) + seq!['\n']));
    }
}

/// A round-trippable entry's compact rendering is its lines, each
/// newline-terminated.
proof fn lemma_entry_render_lines(kv: KvModel)
    requires
        entry_round_trippable(kv),
    ensures
        render_entry(kv, false) == terminate_lines(entry_lines(kv)),
{
    match kv.1 {
        ValueModel::Str(v) => {
            let line0 = kv.0 + seq!['='] + v;
            assert(entry_lines(kv) == seq![line0]);
            assert(terminate_lines(seq![line0].drop_first()) =~= Seq::<char>::empty());
            assert(terminate_lines(entry_lines(kv)) =~= line0 + seq!['\n']);
            assert(render_entry(kv, false) =~= line0 + seq!['\n']);
        },
        ValueModel::List(items) => {
            let opener = kv.0 + seq!['{'];
            let closer = seq!['}'];
            let el = seq![opener] + items + seq![closer];
            assert(entry_lines(kv) == el);
            lemma_terminate_append(seq![opener] + items, seq![closer]);
            assert((seq![opener] + items + seq![closer]) =~= (seq![opener] + items) + seq![
                closer
            ]);
            lemma_terminate_append(seq![opener], items);
            assert(terminate_lines(seq![opener].drop_first()) =~= Seq::<char>::empty());
            assert(terminate_lines(seq![opener]) =~= opener + seq!['\n']);
            assert(terminate_lines(seq![closer].drop_first()) =~= Seq::<char>::empty());
            assert(terminate_lines(seq![closer]) =~= closer + seq!['\n']);
            lemma_join_terminate(items);
            let body = join_sep(items, seq!['\n']);
            assert(terminate_lines(el) == (opener + seq!['\n'] + terminate_lines(items)) + (closer
                + seq!['\n']));
            assert(render_entry(kv, false) == kv.0 + (seq!['{', '\n'] + body + seq!['\n', '}'])
                + seq!['\n']);
            assert(kv.0 + (seq!['{', '\n'] + body + seq!['\n', '}']) + seq!['\n'] =~= ((kv.0
                + seq!['{']) + seq!['\n'] + (body + seq!['\n'])) + (seq!['}'] + seq!['\n']));
        },
    }
}

/// A round-trippable document's compact rendering is its lines, each
/// newline-terminated.
proof fn lemma_doc_render_lines(doc: Seq<KvModel>)
    requires
        forall|i: int| 0 <= i < doc.len() ==> entry_round_trippable(#[trigger] doc[i]),
    ensures
        render_doc(doc, false) == terminate_lines(doc_lines(doc)),
    decreases doc.len(),
{
    if doc.len() == 0 {
    } else {
        assert(forall|i: int|
            0 <= i < doc.drop_first().len() ==> doc.drop_first()[i] == doc[i + 1]);
        lemma_doc_render_lines(doc.drop_first());
        lemma_entry_render_lines(doc[0]);
        lemma_terminate_append(entry_lines(doc[0]), doc_lines(doc.drop_first()));
    }
}

/// Splitting newline-terminated lines yields those lines and one final
/// empty line.
proof fn lemma_split_terminate(ls: Seq<Seq<char>>)
    requires
        forall|i: int| 0 <= i < ls.len() ==> line_safe(#[trigger] ls[i]),
    ensures
        split_lines(terminate_lines(ls)) == ls + seq![Seq::<char>::empty()],
    decreases ls.len(),
{
    if ls.len() == 0 {
        assert(terminate_lines(ls) =~= Seq::<char>::empty());
        assert(split_lines(Seq::<char>::empty()) =~= seq![Seq::<char>::empty()]);
        assert(ls + seq![Seq::<char>::empty()] =~= seq![Seq::<char>::empty()]);
    } else {
        assert(forall|i: int| 0 <= i < ls.drop_first().len() ==> ls.drop_first()[i] == ls[i + 1]);
        lemma_split_terminate(ls.drop_first());
        lemma_split_lines_step(ls[0], terminate_lines(ls.drop_first()));
        assert(split_lines(terminate_lines(ls)) == seq![ls[0]] + (ls.drop_first() + seq![
            Seq::<char>::empty()
        ]));
        assert(seq![ls[0]] + (ls.drop_first() + seq![Seq::<char>::empty()]) =~= ls + seq![
            Seq::<char>::empty()
        ]);
    }
}

/// Every line a round-trippable document renders to is newline-free.
proof fn lemma_doc_lines_safe(doc: Seq<KvModel>)
    requires
        forall|i: int| 0 <= i < doc.len() ==> entry_round_trippable(#[trigger] doc[i]),
    ensures
        forall|i: int| 0 <= i < doc_lines(doc).len() ==> line_safe(#[trigger] doc_lines(doc)[i]),
    decreases doc.len(),
{
    if doc.len() > 0 {
        assert(forall|i: int|
            0 <= i < doc.drop_first().len() ==> doc.drop_first()[i] == doc[i + 1]);
        lemma_doc_lines_safe(doc.drop_first());
        let el = entry_lines(doc[0]);
        assert(forall|i: int| 0 <= i < el.len() ==> line_safe(#[trigger] el[i])) by {
            match doc[0].1 {
                ValueModel::Str(v) => {
                    assert(el[0] == doc[0].0 + seq!['='] + v);
                },
                ValueModel::List(items) => {
                    assert(el[0] == doc[0].0 + seq!['{']);
                    assert(el[el.len() - 1] == seq!['}']);
                    assert(forall|t: int| 0 <= t < items.len() ==> el[1 + t] == items[t]);
                },
            }
        }
        assert(forall|i: int|
            0 <= i < doc_lines(doc).len() ==> doc_lines(doc)[i] == if i < el.len() {
                el[i]
            } else {
                doc_lines(doc.drop_first())[i - el.len()]
            });
    }
}

/// Parsing from line `i` onward, when the remaining lines are exactly the
/// rendered lines of `doc` plus the final empty line, succeeds and appends
/// `doc`'s entries to the accumulator.
proof fn lemma_parse_doc_lines(
    acc: Seq<KvModel>,
    doc: Seq<KvModel>,
    lines: Seq<Seq<char>>,
    i: int,
)
    requires
        0 <= i <= lines.len(),
        lines.skip(i) == doc_lines(doc) + seq![Seq::<char>::empty()],
        unique_keys(doc),
        forall|t: int| 0 <= t < doc.len() ==> entry_round_trippable(#[trigger] doc[t]),
        forall|t: int| 0 <= t < doc.len() ==> !has_key(acc, (#[trigger] doc[t]).0),
    ensures
        parse_lines_from(acc, lines, i) == (ParseOutcome { doc: acc + doc, err: None }),
    decreases doc.len(),
{
    let suffix = lines.skip(i);
    assert(forall|m: int| 0 <= m < suffix.len() ==> suffix[m] == lines[i + m]);
    if doc.len() == 0 {
        assert(doc_lines(doc) =~= Seq::<Seq<char>>::empty());
        assert(suffix =~= seq![Seq::<char>::empty()]);
        assert(lines.len() - i == 1);
        assert(lines[i] == suffix[0]);
        lemma_clean_line_noop(lines[i]);
        assert(clean_line(lines[i]).len() == 0);
        assert(parse_lines_from(acc, lines, i + 1) == (ParseOutcome { doc: acc, err: None }));
        assert(acc + doc =~= acc);
    } else {
        let e = doc[0];
        let rest = doc.drop_first();
        let el = entry_lines(e);
        assert(doc_lines(doc) == el + doc_lines(rest));
        assert(forall|t: int| 0 <= t < rest.len() ==> rest[t] == doc[t + 1]);
        assert(entry_round_trippable(e));
        assert(!has_key(acc, e.0));
        match e.1 {
            ValueModel::Str(v) => {
                let line0 = e.0 + seq!['='] + v;
                assert(el == seq![line0]);
                assert(suffix[0] == (el + (doc_lines(rest) + seq![Seq::<char>::empty()]))[0]);
                assert(lines[i] == line0);
                assert(line0.len() > 0);
                if v.len() > 0 {
                    assert(line0[line0.len() - 1] == v[v.len() - 1]);
                } else {
                    assert(line0[line0.len() - 1] == '=');
                }
                if e.0.len() > 0 {
                    assert(line0[0] == e.0[0]);
                } else {
                    assert(line0[0] == '=');
                }
                assert(!is_slop_ws('='));
                lemma_clean_line_noop(line0);
                let l = clean_line(lines[i]);
                assert(l == line0);
                assert(l[0] != '#');
                assert(l[e.0.len() as int] == '=');
                assert(forall|m: int| 0 <= m < e.0.len() ==> l[m] == e.0[m]);
                lemma_find_char_is(l, '=', e.0.len() as int);
                assert(l.take(e.0.len() as int) =~= e.0);
                assert(l.skip(e.0.len() as int + 1) =~= v);
                assert(valid_key(e.0));
                lemma_kv_insert_absent(acc, e.0, ValueModel::Str(v));
                let acc2 = kv_insert(acc, e.0, ValueModel::Str(v));
                assert((e.0, ValueModel::Str(v)) == e);
                assert(acc2 == acc.push(e));
                assert(lines.skip(i + 1) =~= suffix.drop_first());
                assert(lines.skip(i + 1) =~= doc_lines(rest) + seq![Seq::<char>::empty()]);
                assert(forall|t: int| 0 <= t < rest.len() ==> !has_key(acc2, (#[trigger] rest[t]).0))
                    by {
                    assert forall|t: int| 0 <= t < rest.len() implies !has_key(
                        acc2,
                        (#[trigger] rest[t]).0,
                    ) by {
                        lemma_key_index(acc2, rest[t].0);
                        lemma_key_index(acc, rest[t].0);
                        assert(rest[t].0 != e.0);
                        if has_key(acc2, rest[t].0) {
                            let idx = key_index(acc2, rest[t].0);
                            assert(acc2[idx].0 == rest[t].0);
                            assert(idx < acc.len());
                            assert(acc[idx].0 == rest[t].0);
                            crate::kv::lemma_key_index_is(acc, rest[t].0, idx);
                            assert(false);
                        }
                    }
                }
                lemma_parse_doc_lines(acc2, rest, lines, i + 1);
                assert(acc2 + rest =~= acc + doc);
                assert(parse_lines_from(acc, lines, i) == parse_lines_from(acc2, lines, i + 1));
            },
            ValueModel::List(items) => {
                let n = items.len() as int;
                let opener = e.0 + seq!['{'];
                let closer = seq!['}'];
                assert(el == seq![opener] + items + seq![closer]);
                assert(el.len() == n + 2);
                let tail2 = doc_lines(rest) + seq![Seq::<char>::empty()];
                assert(suffix =~= el + tail2);
                assert(suffix[0] == (el + tail2)[0]);
                assert(lines[i] == opener);
                assert(opener.len() > 0);
                assert(opener[opener.len() - 1] == '{');
                if e.0.len() > 0 {
                    assert(opener[0] == e.0[0]);
                } else {
                    assert(opener[0] == '{');
                }
                assert(!is_slop_ws('{'));
                lemma_clean_line_noop(opener);
                let l = clean_line(lines[i]);
                assert(l == opener);
                assert(l[0] != '#');
                lemma_find_char(l, '=');
                assert(forall|m: int| 0 <= m < e.0.len() ==> l[m] == e.0[m]);
                assert(forall|m: int| 0 <= m < l.len() ==> l[m] != '=');
                assert(find_char(l, '=') == -1);
                assert(l.drop_last() =~= e.0);
                assert(forall|t: int| 0 <= t < n ==> el[1 + t] == items[t]);
                assert forall|m: int| i + 1 <= m < i + 1 + n implies #[trigger] lines[m]
                    == items[m - (i + 1)] by {
                    assert(suffix[m - i] == (el + tail2)[m - i]);
                }
                assert(suffix[n + 1] == (el + tail2)[n + 1]);
                assert(el[n + 1] == closer);
                assert(lines[i + 1 + n] == closer);
                assert(!is_slop_ws('}'));
                lemma_clean_line_noop(closer);
                assert(forall|m: int|
                    i + 1 <= m < i + 1 + n ==> clean_line(#[trigger] lines[m]) != seq!['}']);
                lemma_find_closer_is(lines, i + 1, i + 1 + n);
                let j = find_closer_at(lines, i + 1);
                assert(j == i + 1 + n);
                assert(forall|t: int|
                    0 <= t < n ==> crate::text::cr_strip(#[trigger] items[t]) == items[t]);
                assert(list_items(lines, i, j) =~= items);
                assert(valid_key(e.0));
                lemma_kv_insert_absent(acc, e.0, ValueModel::List(items));
                let acc2 = kv_insert(acc, e.0, ValueModel::List(items));
                assert((e.0, ValueModel::List(items)) == e);
                assert(acc2 == acc.push(e));
                assert(lines.skip(j + 1) =~= doc_lines(rest) + seq![Seq::<char>::empty()]) by {
                    assert(forall|m: int|
                        0 <= m < suffix.len() - el.len() ==> suffix[el.len() + m] == (doc_lines(
                            rest,
                        ) + seq![Seq::<char>::empty()])[m]);
                    assert(forall|m: int|
                        0 <= m < lines.len() - (j + 1) ==> #[trigger] lines.skip(j + 1)[m]
                            == lines[j + 1 + m]);
                }
                assert(forall|t: int| 0 <= t < rest.len() ==> !has_key(acc2, (#[trigger] rest[t]).0))
                    by {
                    assert forall|t: int| 0 <= t < rest.len() implies !has_key(
                        acc2,
                        (#[trigger] rest[t]).0,
                    ) by {
                        lemma_key_index(acc2, rest[t].0);
                        lemma_key_index(acc, rest[t].0);
                        assert(rest[t].0 != e.0);
                        if has_key(acc2, rest[t].0) {
                            let idx = key_index(acc2, rest[t].0);
                            assert(acc2[idx].0 == rest[t].0);
                            assert(idx < acc.len());
                            assert(acc[idx].0 == rest[t].0);
                            crate::kv::lemma_key_index_is(acc, rest[t].0, idx);
                            assert(false);
                        }
                    }
                }
                lemma_parse_doc_lines(acc2, rest, lines, j + 1);
                assert(acc2 + rest =~= acc + doc);
                assert(parse_lines_from(acc, lines, i) == parse_lines_from(acc2, lines, j + 1));
            },
        }
    }
}

/// Round trip: parsing the compact rendering of a round-trippable document
/// succeeds and yields exactly that document's entries. Every document a
/// successful parse produces is of this shape, except one holding an empty
/// list or a string or item ending in a carriage return.
pub proof fn lemma_parse_render_round_trip(doc: Seq<KvModel>)
    requires
        doc_round_trippable(doc),
    ensures
        parse_lines_from(Seq::<KvModel>::empty(), split_lines(render_doc(doc, false)), 0)
            == (ParseOutcome { doc, err: None }),
{
    lemma_doc_render_lines(doc);
    lemma_doc_lines_safe(doc);
    lemma_split_terminate(doc_lines(doc));
    let lines = split_lines(render_doc(doc, false));
    assert(lines.skip(0) =~= lines);
    assert(forall|t: int| 0 <= t < doc.len() ==> !has_key(Seq::<KvModel>::empty(), (#[trigger] doc[t]).0));
    lemma_parse_doc_lines(Seq::<KvModel>::empty(), doc, lines, 0);
    assert(Seq::<KvModel>::empty() + doc =~= doc);
}

/// Idempotence: rendering, parsing, and rendering again gives the same text
/// as rendering once, for any round-trippable document.
pub proof fn lemma_render_idempotent(doc: Seq<KvModel>)
    requires
        doc_round_trippable(doc),
    ensures
        ({
            let o = parse_lines_from(
                Seq::<KvModel>::empty(),
                split_lines(render_doc(doc, false)),
                0,
            );
            o.err is None && render_doc(o.doc, false) == render_doc(doc, false)
        }),
{
    lemma_parse_render_round_trip(doc);
}

/// The shape of every entry a parsing pass can build: a valid key with no
/// newline, no leading whitespace, and no leading `#`; a string value on
/// one line; list items each on one line, none of which trims to a closer.
pub open spec fn entry_parsed_shape(kv: KvModel) -> bool {
    &&& valid_key(kv.0)
    &&& line_safe(kv.0)
    &&& (kv.0.len() > 0 ==> !is_slop_ws(kv.0[0]) && kv.0[0] != '#')
    &&& match kv.1 {
        ValueModel::Str(v) => line_safe(v),
        ValueModel::List(items) => forall|t: int|
            0 <= t < items.len() ==> line_safe(#[trigger] items[t]) && trim_start(items[t])
                != seq!['}'],
    }
}

/// Every entry of an insert is an old entry or the inserted one.
proof fn lemma_kv_insert_entries(doc: Seq<KvModel>, k: Seq<char>, v: ValueModel)
    ensures
        forall|m: int|
            0 <= m < kv_insert(doc, k, v).len() ==> (#[trigger] kv_insert(doc, k, v)[m] == (k, v)
                || (0 <= m < doc.len() && kv_insert(doc, k, v)[m] == doc[m])),
{
    lemma_key_index(doc, k);
}

/// A parsing pass over newline-free lines keeps keys pairwise distinct and
/// every entry of parsed shape — whether or not it fails.
proof fn lemma_parse_lines_shape(doc: Seq<KvModel>, lines: Seq<Seq<char>>, i: int)
    requires
        forall|m: int| 0 <= m < lines.len() ==> line_safe(#[trigger] lines[m]),
        unique_keys(doc),
        forall|t: int| 0 <= t < doc.len() ==> entry_parsed_shape(#[trigger] doc[t]),
    ensures
        ({
            let o = parse_lines_from(doc, lines, i);
            unique_keys(o.doc) && (forall|t: int|
                0 <= t < o.doc.len() ==> entry_parsed_shape(#[trigger] o.doc[t]))
        }),
    decreases lines.len() - i,
{
    if 0 <= i < lines.len() {
        let l = clean_line(lines[i]);
        lemma_clean_line_shape(lines[i]);
        if l.len() == 0 || l[0] == '#' {
            lemma_parse_lines_shape(doc, lines, i + 1);
        } else if find_char(l, '=') >= 0 {
            lemma_find_char(l, '=');
            let k = l.take(find_char(l, '='));
            let v = l.skip(find_char(l, '=') + 1);
            if valid_key(k) {
                let e = (k, ValueModel::Str(v));
                assert(entry_parsed_shape(e)) by {
                    assert(forall|x: int| 0 <= x < k.len() ==> k[x] == l[x]);
                    assert(forall|x: int|
                        0 <= x < v.len() ==> v[x] == l[x + find_char(l, '=') + 1]);
                }
                let doc2 = kv_insert(doc, k, ValueModel::Str(v));
                crate::kv::lemma_kv_insert_unique(doc, k, ValueModel::Str(v));
                lemma_kv_insert_entries(doc, k, ValueModel::Str(v));
                lemma_parse_lines_shape(doc2, lines, i + 1);
            }
        } else if l.len() > 0 && l[l.len() - 1] == '{' {
            let k = l.drop_last();
            let j = find_closer_at(lines, i + 1);
            crate::parse::lemma_find_closer(lines, i + 1);
            if j >= 0 && valid_key(k) {
                let items = list_items(lines, i, j);
                let e = (k, ValueModel::List(items));
                assert(entry_parsed_shape(e)) by {
                    assert(forall|x: int| 0 <= x < k.len() ==> k[x] == l[x]);
                    assert forall|t: int| 0 <= t < items.len() implies line_safe(
                        #[trigger] items[t],
                    ) && trim_start(items[t]) != seq!['}'] by {
                        assert(items[t] == cr_strip(lines[i + 1 + t]));
                        assert(line_safe(lines[i + 1 + t]));
                        assert(forall|x: int|
                            0 <= x < items[t].len() ==> items[t][x] == lines[i + 1 + t][x]);
                        assert(clean_line(lines[i + 1 + t]) != seq!['}']);
                    }
                }
                let doc2 = kv_insert(doc, k, ValueModel::List(items));
                crate::kv::lemma_kv_insert_unique(doc, k, ValueModel::List(items));
                lemma_kv_insert_entries(doc, k, ValueModel::List(items));
                lemma_parse_lines_shape(doc2, lines, j + 1);
            }
        }
    }
}

/// Well-formedness of parse results: whatever text is parsed into an empty
/// document, and whether or not parsing succeeds, the entries built have
/// pairwise distinct keys and the parsed shape.
pub proof fn lemma_parse_output_shape(s: Seq<char>)
    ensures
        ({
            let o = parse_lines_from(Seq::<KvModel>::empty(), split_lines(s), 0);
            unique_keys(o.doc) && (forall|t: int|
                0 <= t < o.doc.len() ==> entry_parsed_shape(#[trigger] o.doc[t]))
        }),
{
    lemma_split_lines_safe(s);
    lemma_parse_lines_shape(Seq::<KvModel>::empty(), split_lines(s), 0);
}

/// The entries whose rendering loses nothing: a list is not empty (an
/// empty list renders like a list of one empty item), and no string value
/// or list item ends in a carriage return (a trailing `\r` is stripped
/// when its line is read back).
pub open spec fn entry_render_exact(kv: KvModel) -> bool {
    match kv.1 {
        ValueModel::Str(v) => v.len() > 0 ==> v[v.len() - 1] != '\r',
        ValueModel::List(items) => items.len() > 0 && (forall|t: int|
            0 <= t < items.len() ==> (#[trigger] items[t]).len() > 0 ==> items[t][items[t].len()
                - 1] != '\r'),
    }
}

/// An entry of parsed shape whose rendering loses nothing is
/// round-trippable.
pub proof fn lemma_parsed_shape_round_trippable(kv: KvModel)
    requires
        entry_parsed_shape(kv),
        entry_render_exact(kv),
    ensures
        entry_round_trippable(kv),
{
    match kv.1 {
        ValueModel::Str(_) => {},
        ValueModel::List(items) => {
            assert forall|t: int| 0 <= t < items.len() implies clean_line(#[trigger] items[t])
                != seq!['}'] by {
                assert(cr_strip(items[t]) == items[t]);
                assert(trim_start(items[t]) != seq!['}']);
            }
        },
    }
}

/// Round trip from text: when parsing succeeds and no entry it built is an
/// empty list or ends a text in a carriage return, parsing the compact
/// rendering of the parsed document yields exactly that document again.
pub proof fn lemma_parse_then_render_round_trip(s: Seq<char>)
    requires
        ({
            let o = parse_lines_from(Seq::<KvModel>::empty(), split_lines(s), 0);
            o.err is None && (forall|t: int|
                0 <= t < o.doc.len() ==> entry_render_exact(#[trigger] o.doc[t]))
        }),
    ensures
        ({
            let o = parse_lines_from(Seq::<KvModel>::empty(), split_lines(s), 0);
            parse_lines_from(Seq::<KvModel>::empty(), split_lines(render_doc(o.doc, false)), 0)
                == (ParseOutcome { doc: o.doc, err: None })
        }),
{
    let o = parse_lines_from(Seq::<KvModel>::empty(), split_lines(s), 0);
    lemma_parse_output_shape(s);
    assert forall|t: int| 0 <= t < o.doc.len() implies entry_round_trippable(
        #[trigger] o.doc[t],
    ) by {
        lemma_parsed_shape_round_trippable(o.doc[t]);
    }
    lemma_parse_render_round_trip(o.doc);
}

/// Duplicate keys: after inserting `k` twice, the document maps `k` to the
/// second value, and the first value is what the second insert finds as the
/// previous one.
pub proof fn lemma_insert_twice(
    doc: Seq<KvModel>,
    k: Seq<char>,
    v1: ValueModel,
    v2: ValueModel,
)
    ensures
        kv_find(kv_insert(doc, k, v1), k) == Some(v1),
        kv_find(kv_insert(kv_insert(doc, k, v1), k, v2), k) == Some(v2),
        forall|k2: Seq<char>|
            k2 != k ==> #[trigger] kv_find(kv_insert(kv_insert(doc, k, v1), k, v2), k2) == kv_find(
                doc,
                k2,
            ),
{
    lemma_kv_insert_find(doc, k, v1, k);
    assert forall|k2: Seq<char>| k2 != k implies #[trigger] kv_find(
        kv_insert(kv_insert(doc, k, v1), k, v2),
        k2,
    ) == kv_find(doc, k2) by {
        lemma_kv_insert_find(doc, k, v1, k2);
        lemma_kv_insert_find(kv_insert(doc, k, v1), k, v2, k2);
    }
    lemma_kv_insert_find(kv_insert(doc, k, v1), k, v2, k);
}

} // verus!
