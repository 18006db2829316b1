//! The in-memory SLOP document: a mapping from keys to values, with
//! lookup, mutation, parsing from text and rendering back to text.

use vstd::prelude::*;
use vstd::string::StrSliceExecFns;
use crate::error::{ErrModel, SlopError};
use crate::kv::{has_key, key_index, kv_find, kv_insert, lemma_key_index, lemma_key_index_is,
    valid_key, KvModel};
use crate::parse::{find_closer_at, parse_lines_from, parse_list_kv, parse_string_kv,
    ParseOutcome};
use crate::text::{chars_of_str, clean_line, clean_up_line, lines_view, split_lines,
    split_lines_exec, str_eq, string_from_chars};
use crate::value::{render_value, render_value_pretty, SlopValue, ValueModel};

verus! {

/// The view of a document's entry vector, as a sequence of model entries.
pub open spec fn doc_view(items: Seq<(String, SlopValue)>) -> Seq<KvModel> {
    items.map_values(|p: (String, SlopValue)| (p.0@, p.1@))
}

/// One rendered entry: the key, the rendered value, and a terminating
/// newline.
pub open spec fn render_entry(kv: KvModel, pretty: bool) -> Seq<char> {
    kv.0 + (if pretty {
        render_value_pretty(kv.1)
    } else {
        render_value(kv.1)
    }) + seq!['\n']
}

/// The rendered text of a document: its entries' renderings, concatenated
/// in entry order.
pub open spec fn render_doc(s: Seq<KvModel>, pretty: bool) -> Seq<char>
    decreases s.len(),
{
    if s.len() == 0 {
        Seq::empty()
    } else {
        render_entry(s[0], pretty) + render_doc(s.drop_first(), pretty)
    }
}

/// Rendering one entry more appends that entry's rendering.
pub proof fn lemma_render_doc_take(s: Seq<KvModel>, pretty: bool, i: int)
    requires
        0 <= i < s.len(),
    ensures
        render_doc(s.take(i + 1), pretty) == render_doc(s.take(i), pretty) + render_entry(
            s[i],
            pretty,
        ),
    decreases i,
{
    if i == 0 {
        assert(s.take(1).drop_first() =~= Seq::<KvModel>::empty());
        assert(s.take(0) =~= Seq::<KvModel>::empty());
        assert(render_entry(s[0], pretty) + Seq::<char>::empty() =~= render_entry(s[0], pretty));
        assert(Seq::<char>::empty() + render_entry(s[0], pretty) =~= render_entry(s[0], pretty));
    } else {
        let d = s.drop_first();
        assert(s.take(i + 1).drop_first() =~= d.take(i));
        assert(s.take(i).drop_first() =~= d.take(i - 1));
        lemma_render_doc_take(d, pretty, i - 1);
        assert(d[i - 1] == s[i]);
        assert(render_doc(s.take(i + 1), pretty) == render_entry(s[0], pretty) + (render_doc(
            d.take(i - 1),
            pretty,
        ) + render_entry(s[i], pretty)));
        assert(render_entry(s[0], pretty) + (render_doc(d.take(i - 1), pretty) + render_entry(
            s[i],
            pretty,
        )) =~= (render_entry(s[0], pretty) + render_doc(d.take(i - 1), pretty)) + render_entry(
            s[i],
            pretty,
        ));
    }
}

/// Whether `key` is a valid document key: no `=`, and no trailing `{`.
pub fn key_is_valid(key: &str) -> (r: bool)
    ensures
        r == valid_key(key@),
{
    let n = key.unicode_len();
    if n > 0 && key.get_char(n - 1) == '{' {
        return false;
    }
    let mut i: usize = 0;
    while i < n
        invariant
            i <= n,
            n == key@.len(),
            forall|j: int| 0 <= j < i ==> key@[j] != '=',
            n > 0 ==> key@[n - 1] != '{',
        decreases n - i,
    {
        if key.get_char(i) == '=' {
            return false;
        }
        i += 1;
    }
    true
}

/// A parsed SLOP document, held in memory as a mapping from keys to
/// values. Iteration order of its entries is unspecified.
#[derive(Debug, Clone)]
pub struct Slop {
    items: Vec<(String, SlopValue)>,
}

impl View for Slop {
    type V = Seq<KvModel>;

    closed spec fn view(&self) -> Seq<KvModel> {
        doc_view(self.items@)
    }
}

impl Slop {
    /// Constructs an empty document.
    pub fn new() -> (r: Self)
        ensures
            r@ == Seq::<KvModel>::empty(),
    {
        let r = Slop { items: Vec::new() };
        proof {
            assert(r@ =~= Seq::<KvModel>::empty());
        }
        r
    }

    /// Whether the document has no entries.
    pub fn is_empty(&self) -> (r: bool)
        ensures
            r == (self@.len() == 0),
    {
        self.items.is_empty()
    }

    /// Index of the entry holding `key`, if any.
    fn find_entry(&self, key: &str) -> (r: Option<usize>)
        ensures
            match r {
                Some(i) => key_index(self@, key@) == i as int,
                None => key_index(self@, key@) == -1,
            },
    {
        let mut i: usize = 0;
        while i < self.items.len()
            invariant
                i <= self.items@.len(),
                forall|j: int| 0 <= j < i ==> self@[j].0 != key@,
            decreases self.items@.len() - i,
        {
            let p = &self.items[i];
            if str_eq(p.0.as_str(), key) {
                proof {
                    lemma_key_index_is(self@, key@, i as int);
                }
                return Some(i);
            }
            i += 1;
        }
        proof {
            lemma_key_index(self@, key@);
        }
        None
    }

    /// Whether the document holds an entry for `key`.
    pub fn contains_key(&self, key: &str) -> (r: bool)
        ensures
            r == has_key(self@, key@),
    {
        self.find_entry(key).is_some()
    }

    /// The value mapped to `key`, or `None` if there is none.
    pub fn get(&self, key: &str) -> (r: Option<&SlopValue>)
        ensures
            match r {
                Some(v) => kv_find(self@, key@) == Some(v@),
                None => kv_find(self@, key@) is None,
            },
    {
        match self.find_entry(key) {
            Some(i) => {
                proof {
                    lemma_key_index(self@, key@);
                }
                let p = &self.items[i];
                Some(&p.1)
            },
            None => None,
        }
    }

    /// The string mapped to `key`, or `None` if the key is missing or maps
    /// to a list.
    pub fn get_string(&self, key: &str) -> (r: Option<&String>)
        ensures
            match r {
                Some(s) => kv_find(self@, key@) == Some(ValueModel::Str(s@)),
                None => has_key(self@, key@) ==> self@[key_index(self@, key@)].1 is List,
            },
    {
        match self.get(key) {
            Some(v) => v.string(),
            None => None,
        }
    }

    /// The list mapped to `key`, or `None` if the key is missing or maps to
    /// a string.
    pub fn get_list(&self, key: &str) -> (r: Option<&Vec<String>>)
        ensures
            match r {
                Some(l) => kv_find(self@, key@) == Some(
                    ValueModel::List(crate::value::strs_view(l@)),
                ),
                None => has_key(self@, key@) ==> self@[key_index(self@, key@)].1 is Str,
            },
    {
        match self.get(key) {
            Some(v) => v.list(),
            None => None,
        }
    }

    /// Maps `key` to `value` after checking the key: a key containing `=`
    /// or ending in `{` is rejected, and the document is unchanged. On
    /// success, returns the previously mapped value, if any.
    pub fn insert(&mut self, key: String, value: SlopValue) -> (r: Result<
        Option<SlopValue>,
        SlopError,
    >)
        ensures
            valid_key(key@) ==> match r {
                Ok(prev) => final(self)@ == kv_insert(old(self)@, key@, value@) && (match prev {
                    Some(p) => kv_find(old(self)@, key@) == Some(p@),
                    None => kv_find(old(self)@, key@) is None,
                }),
                Err(_) => false,
            },
            !valid_key(key@) ==> match r {
                Ok(_) => false,
                Err(e) => e@ == ErrModel::InvalidKey(key@) && final(self)@ == old(self)@,
            },
    {
        if !key_is_valid(key.as_str()) {
            return Err(SlopError::InvalidKey(key));
        }
        Ok(self.insert_unchecked(key, value))
    }

    /// Maps `key` to `value` without checking the key; the caller
    /// guarantees its validity. Returns the previously mapped value, if
    /// any.
    pub fn insert_unchecked(&mut self, key: String, value: SlopValue) -> (r: Option<SlopValue>)
        ensures
            final(self)@ == kv_insert(old(self)@, key@, value@),
            match r {
                Some(p) => kv_find(old(self)@, key@) == Some(p@),
                None => kv_find(old(self)@, key@) is None,
            },
    {
        match self.find_entry(key.as_str()) {
            Some(i) => {
                proof {
                    lemma_key_index(self@, key@);
                }
                let ghost k0 = key@;
                let ghost v0 = value@;
                let mut tmp = (key, value);
                core::mem::swap(&mut self.items[i], &mut tmp);
                proof {
                    assert(self@.len() == old(self)@.len());
                    assert(forall|m: int|
                        0 <= m < self@.len() && m != i ==> self@[m] == old(self)@[m]);
                    assert(self@[i as int] == (k0, v0));
                    assert(self@ =~= kv_insert(old(self)@, k0, v0));
                }
                Some(tmp.1)
            },
            None => {
                self.items.push((key, value));
                proof {
                    assert(final(self)@ =~= kv_insert(old(self)@, key@, value@));
                }
                None
            },
        }
    }

    /// The entries of the document, as key-value pairs.
    pub fn iter(&self) -> (r: &Vec<(String, SlopValue)>)
        ensures
            doc_view(r@) == self@,
    {
        &self.items
    }

    /// The entries of the document, with the values open to mutation. The
    /// document afterwards holds whatever the caller leaves here.
    pub fn iter_mut(&mut self) -> (r: &mut Vec<(String, SlopValue)>)
        ensures
            doc_view((*r)@) == old(self)@,
            final(self)@ == doc_view((*final(r))@),
    {
        &mut self.items
    }

    /// The entries of the document, by ownership transfer.
    pub fn into_entries(self) -> (r: Vec<(String, SlopValue)>)
        ensures
            doc_view(r@) == self@,
    {
        self.items
    }

    /// Parses `slop_str` and appends the resulting entries to this
    /// document, line group by line group, as [`parse_lines_from`] says. On
    /// failure the entries parsed before the failure point remain: parsing
    /// is not transactional.
    pub fn append_slop_string(&mut self, slop_str: &str) -> (r: Result<(), SlopError>)
        ensures
            ({
                let o = parse_lines_from(old(self)@, split_lines(slop_str@), 0);
                &&& final(self)@ == o.doc
                &&& match r {
                    Ok(_) => o.err is None,
                    Err(e) => o.err == Some(e@),
                }
            }),
    {
        let cs = chars_of_str(slop_str);
        let lines = split_lines_exec(&cs);
        let ghost lv = lines_view(lines@);
        let n = lines.len();
        let mut i: usize = 0;
        while i < n
            invariant
                i <= n,
                n == lines@.len(),
                lv == lines_view(lines@),
                lv == split_lines(slop_str@),
                parse_lines_from(old(self)@, lv, 0) == parse_lines_from(self@, lv, i as int),
            decreases n - i,
        {
            proof {
                assert(lv[i as int] == lines@[i as int]@);
            }
            let cl = clean_up_line(&lines[i]);
            let is_comment = cl.len() == 0 || cl[0] == '#';
            if is_comment {
                proof {
                    assert(parse_lines_from(self@, lv, i as int) == parse_lines_from(
                        self@,
                        lv,
                        i + 1,
                    ));
                }
                i += 1;
            } else if let Some((key, value)) = parse_string_kv(&cl) {
                let ghost pre = self@;
                match self.insert(key, value) {
                    Ok(_) => {
                        proof {
                            assert(parse_lines_from(pre, lv, i as int) == parse_lines_from(
                                self@,
                                lv,
                                i + 1,
                            ));
                        }
                        i += 1;
                    },
                    Err(e) => {
                        proof {
                            assert(parse_lines_from(pre, lv, i as int) == ParseOutcome {
                                doc: pre,
                                err: Some(e@),
                            });
                        }
                        return Err(e);
                    },
                }
            } else {
                match parse_list_kv(&lines, i) {
                    Ok(Some((key, value, skip))) => {
                        let ghost pre = self@;
                        let ghost j = find_closer_at(lv, i + 1);
                        proof {
                            crate::parse::lemma_find_closer(lv, i + 1);
                            assert(j < n && skip == j - i);
                        }
                        match self.insert(key, value) {
                            Ok(_) => {
                                proof {
                                    assert(parse_lines_from(pre, lv, i as int)
                                        == parse_lines_from(self@, lv, j + 1));
                                }
                                i = i + skip + 1;
                            },
                            Err(e) => {
                                proof {
                                    assert(parse_lines_from(pre, lv, i as int) == ParseOutcome {
                                        doc: pre,
                                        err: Some(e@),
                                    });
                                }
                                return Err(e);
                            },
                        }
                    },
                    Ok(None) => {
                        let text = string_from_chars(&cl);
                        let e = SlopError::InvalidLine(i, text);
                        proof {
                            assert(parse_lines_from(self@, lv, i as int) == ParseOutcome {
                                doc: self@,
                                err: Some(e@),
                            });
                        }
                        return Err(e);
                    },
                    Err(e) => {
                        proof {
                            assert(parse_lines_from(self@, lv, i as int) == ParseOutcome {
                                doc: self@,
                                err: Some(e@),
                            });
                        }
                        return Err(e);
                    },
                }
            }
        }
        proof {
            assert(parse_lines_from(self@, lv, n as int) == ParseOutcome {
                doc: self@,
                err: None,
            });
        }
        Ok(())
    }

    /// Parses `slop_str` into a new document; on failure the error alone is
    /// returned.
    pub fn from_str(slop_str: &str) -> (r: Result<Slop, SlopError>)
        ensures
            ({
                let o = parse_lines_from(Seq::<KvModel>::empty(), split_lines(slop_str@), 0);
                match r {
                    Ok(slop) => slop@ == o.doc && o.err is None,
                    Err(e) => o.err == Some(e@),
                }
            }),
    {
        let mut slop = Slop::new();
        match slop.append_slop_string(slop_str) {
            Ok(_) => Ok(slop),
            Err(e) => Err(e),
        }
    }

    /// The characters of this document's rendering; compact, or pretty
    /// when `pretty` is set.
    fn render_chars(&self, pretty: bool) -> (r: Vec<char>)
        ensures
            r@ == render_doc(self@, pretty),
    {
        let ghost model = self@;
        let mut out: Vec<char> = Vec::new();
        let mut i: usize = 0;
        proof {
            assert(model.take(0) =~= Seq::<KvModel>::empty());
        }
        while i < self.items.len()
            invariant
                i <= self.items@.len(),
                model == self@,
                out@ == render_doc(model.take(i as int), pretty),
            decreases self.items@.len() - i,
        {
            let ghost out0 = out@;
            let p = &self.items[i];
            crate::value::push_str_chars(&mut out, p.0.as_str());
            let vcs = p.1.render_chars(pretty);
            out.extend_from_slice(vcs.as_slice());
            out.push('\n');
            proof {
                lemma_render_doc_take(model, pretty, i as int);
                assert(out@ =~= out0 + render_entry(model[i as int], pretty));
            }
            i += 1;
        }
        proof {
            assert(model.take(self.items@.len() as int) =~= model);
        }
        out
    }

    /// The compact rendering of the document: one entry per line group, in
    /// entry order, list items unindented.
    pub fn to_string(&self) -> (r: String)
        ensures
            r@ == render_doc(self@, false),
    {
        let cs = self.render_chars(false);
        string_from_chars(&cs)
    }

    /// The pretty rendering of the document: as [`Slop::to_string`], but
    /// list items are indented by four spaces.
    pub fn to_string_pretty(&self) -> (r: String)
        ensures
            r@ == render_doc(self@, true),
    {
        let cs = self.render_chars(true);
        string_from_chars(&cs)
    }
}

} // verus!
