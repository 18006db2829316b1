//! The SLOP parser: a line-oriented pass that turns text into document
//! entries, specified as a recursive function over the sequence of lines
//! and realized by verified helpers.

use vstd::prelude::*;
use crate::error::{ErrModel, SlopError};
use crate::kv::{kv_insert, valid_key, KvModel};
use crate::text::{clean_line, clean_up_line, copy_range, cr_strip, cr_strip_line, find_char,
    find_char_in, lemma_find_char, string_from_chars};
use crate::value::{SlopValue, ValueModel};

verus! {

/// What one parsing pass produces: the entries accumulated up to the end of
/// the input or up to the first failure, and the failure if there was one.
pub ghost struct ParseOutcome {
    /// The document entries after the pass; on failure, the entries parsed
    /// before the failure point.
    pub doc: Seq<KvModel>,
    /// The failure that stopped the pass, if any.
    pub err: Option<ErrModel>,
}

/// Index of the first line at or after `j` whose cleaned form is exactly
/// `}`, or `-1` if there is none.
pub open spec fn find_closer_at(lines: Seq<Seq<char>>, j: int) -> int
    decreases lines.len() - j,
{
    if j < 0 || j >= lines.len() {
        -1
    } else if clean_line(lines[j]) == seq!['}'] {
        j
    } else {
        find_closer_at(lines, j + 1)
    }
}

/// `find_closer_at` returns either `-1` (no closer) or the first index at
/// or after `j` whose cleaned line is `}`.
pub proof fn lemma_find_closer(lines: Seq<Seq<char>>, j: int)
    requires
        j >= 0,
    ensures
        find_closer_at(lines, j) >= 0 ==> j <= find_closer_at(lines, j) < lines.len()
            && clean_line(lines[find_closer_at(lines, j)]) == seq!['}'] && (forall|m: int|
            j <= m < find_closer_at(lines, j) ==> clean_line(lines[m]) != seq!['}']),
        find_closer_at(lines, j) < 0 ==> find_closer_at(lines, j) == -1 && (forall|m: int|
            j <= m < lines.len() ==> clean_line(lines[m]) != seq!['}']),
    decreases lines.len() - j,
{
    if j < lines.len() && clean_line(lines[j]) != seq!['}'] {
        lemma_find_closer(lines, j + 1);
    }
}

/// If the first closer at or after `j` stands at `idx`, `find_closer_at`
/// returns `idx`.
pub proof fn lemma_find_closer_is(lines: Seq<Seq<char>>, j: int, idx: int)
    requires
        0 <= j <= idx < lines.len(),
        clean_line(lines[idx]) == seq!['}'],
        forall|m: int| j <= m < idx ==> clean_line(lines[m]) != seq!['}'],
    ensures
        find_closer_at(lines, j) == idx,
    decreases idx - j,
{
    if j < idx {
        lemma_find_closer_is(lines, j + 1, idx);
    }
}

/// The list items opened at line `i`: the raw lines strictly between the
/// opener and the closer at `j`, each with one trailing carriage return
/// removed.
pub open spec fn list_items(lines: Seq<Seq<char>>, i: int, j: int) -> Seq<Seq<char>> {
    Seq::new((j - (i + 1)) as nat, |t: int| cr_strip(lines[i + 1 + t]))
}

/// Parses `lines` from index `i` onward into `doc`, line group by line
/// group:
/// - a blank or `#` line (after cleaning) is skipped;
/// - a line with `=` maps the text before the first `=` to the text after
///   it as a string value;
/// - a line ending in `{` opens a list: the raw lines up to the first line
///   cleaning to `}` become its items, and parsing resumes past the closer;
///   with no closer the pass fails;
/// - any other line fails the pass;
/// - each entry is inserted under key validation: a key containing `=` or
///   ending in `{` fails the pass, leaving the entries parsed before it.
pub open spec fn parse_lines_from(doc: Seq<KvModel>, lines: Seq<Seq<char>>, i: int) -> ParseOutcome
    decreases lines.len() - i via parse_lines_from_decreases
{
    if i < 0 || i >= lines.len() {
        ParseOutcome { doc, err: None }
    } else {
        let l = clean_line(lines[i]);
        if l.len() == 0 || l[0] == '#' {
            parse_lines_from(doc, lines, i + 1)
        } else if find_char(l, '=') >= 0 {
            let k = l.take(find_char(l, '='));
            let v = l.skip(find_char(l, '=') + 1);
            if valid_key(k) {
                parse_lines_from(kv_insert(doc, k, ValueModel::Str(v)), lines, i + 1)
            } else {
                ParseOutcome { doc, err: Some(ErrModel::InvalidKey(k)) }
            }
        } else if l.len() > 0 && l[l.len() - 1] == '{' {
            let k = l.drop_last();
            let j = find_closer_at(lines, i + 1);
            if j < 0 {
                ParseOutcome { doc, err: Some(ErrModel::UnclosedList(i, lines[i])) }
            } else {
                if valid_key(k) {
                    parse_lines_from(
                        kv_insert(doc, k, ValueModel::List(list_items(lines, i, j))),
                        lines,
                        j + 1,
                    )
                } else {
                    ParseOutcome { doc, err: Some(ErrModel::InvalidKey(k)) }
                }
            }
        } else {
            ParseOutcome { doc, err: Some(ErrModel::InvalidLine(i, l)) }
        }
    }
}

#[via_fn]
proof fn parse_lines_from_decreases(doc: Seq<KvModel>, lines: Seq<Seq<char>>, i: int) {
    if 0 <= i < lines.len() {
        lemma_find_closer(lines, i + 1);
    }
}

/// If the cleaned `line` holds an `=`, the string entry it defines: the key
/// is the text before the first `=`, the value the text after it.
pub fn parse_string_kv(line: &Vec<char>) -> (r: Option<(String, SlopValue)>)
    ensures
        match r {
            Some(p) => find_char(line@, '=') >= 0 && p.0@ == line@.take(find_char(line@, '='))
                && p.1@ == ValueModel::Str(line@.skip(find_char(line@, '=') + 1)),
            None => find_char(line@, '=') == -1,
        },
{
    match find_char_in(line, '=') {
        Some(i) => {
            let len = line.len();
            proof {
                lemma_find_char(line@, '=');
                assert(i < len);
            }
            let key_cs = copy_range(line, 0, i);
            let val_cs = copy_range(line, i + 1, len);
            let key = string_from_chars(&key_cs);
            let val = string_from_chars(&val_cs);
            Some((key, SlopValue::String(val)))
        },
        None => None,
    }
}

/// If the line at `start_index` (cleaned) ends in `{`, the list entry it
/// opens: the raw lines up to the first `}` line become the items, and the
/// returned count says how many further lines the caller must skip (items
/// and closer). Fails if no line cleans to `}` before the input ends.
pub fn parse_list_kv(lines: &Vec<Vec<char>>, start_index: usize) -> (r: Result<
    Option<(String, SlopValue, usize)>,
    SlopError,
>)
    requires
        start_index < lines@.len(),
    ensures
        ({
            let lv = crate::text::lines_view(lines@);
            let l = clean_line(lv[start_index as int]);
            match r {
                Ok(Some(p)) => {
                    let j = find_closer_at(lv, start_index + 1);
                    &&& l.len() > 0 && l[l.len() - 1] == '{'
                    &&& j >= 0
                    &&& p.0@ == l.drop_last()
                    &&& p.1@ == ValueModel::List(list_items(lv, start_index as int, j))
                    &&& p.2 == j - start_index
                },
                Ok(None) => l.len() == 0 || l[l.len() - 1] != '{',
                Err(e) => l.len() > 0 && l[l.len() - 1] == '{' && find_closer_at(
                    lv,
                    start_index + 1,
                ) == -1 && e@ == ErrModel::UnclosedList(start_index as int, lv[start_index as int]),
            }
        }),
{
    let ghost lv = crate::text::lines_view(lines@);
    let n = lines.len();
    proof {
        assert(lv[start_index as int] == lines@[start_index as int]@);
    }
    let cl = clean_up_line(&lines[start_index]);
    if cl.len() == 0 || cl[cl.len() - 1] != '{' {
        return Ok(None);
    }
    let key_cs = copy_range(&cl, 0, cl.len() - 1);
    proof {
        assert(key_cs@ =~= clean_line(lv[start_index as int]).drop_last());
    }
    let mut items: Vec<String> = Vec::new();
    let mut j = start_index + 1;
    while j < n
        invariant
            start_index + 1 <= j <= lines@.len(),
            n == lines@.len(),
            lv == crate::text::lines_view(lines@),
            clean_line(lv[start_index as int]).len() > 0,
            clean_line(lv[start_index as int]).last() == '{',
            key_cs@ == clean_line(lv[start_index as int]).drop_last(),
            forall|m: int| start_index + 1 <= m < j ==> clean_line(lv[m]) != seq!['}'],
            items@.len() == j - (start_index + 1),
            forall|t: int|
                0 <= t < items@.len() ==> items@[t]@ == cr_strip(lv[start_index + 1 + t]),
        decreases lines@.len() - j,
    {
        proof {
            assert(lv[j as int] == lines@[j as int]@);
        }
        let cj = clean_up_line(&lines[j]);
        if cj.len() == 1 && cj[0] == '}' {
            proof {
                assert(cj@ =~= seq!['}']);
                lemma_find_closer_is(lv, start_index + 1, j as int);
                assert(crate::value::strs_view(items@) =~= list_items(
                    lv,
                    start_index as int,
                    j as int,
                ));
            }
            let key = string_from_chars(&key_cs);
            return Ok(Some((key, SlopValue::List(items), j - start_index)));
        }
        proof {
            if clean_line(lv[j as int]) == seq!['}'] {
                assert(cj@.len() == 1 && cj@[0] == '}');
                assert(false);
            }
        }
        let item_cs = cr_strip_line(&lines[j]);
        let item = string_from_chars(&item_cs);
        items.push(item);
        j += 1;
    }
    proof {
        lemma_find_closer(lv, start_index + 1);
    }
    let raw = string_from_chars(&lines[start_index]);
    Err(SlopError::UnclosedList(start_index, raw))
}

} // verus!
