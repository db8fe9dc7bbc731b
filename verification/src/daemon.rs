//! What the daemon answers: bodies by hash or hash prefix, files, file and
//! body information, the catalog, the skeleton and the request log.
//!
//! Each answer is a status, headers and a body; serving it over HTTP and
//! encoding the JSON answers is left to the program around the library.
use vstd::prelude::*;
use crate::cache::{dir_prefix, spec_strip_repo_prefix, strip_repo_prefix, strs, BodyEntry, DaemonCache, FileEntry};
use crate::text::{
    append, append_str, chars_of, decimal, decimal_vec, join, join_with, starts_with, string_of,
    trim, trim_vec, vec_starts_with, views, lines, utf8,
};

verus! {

/// A status, headers and body to send back.
#[derive(Debug)]
pub struct Reply {
    pub status: u16,
    pub headers: Vec<(String, String)>,
    pub body: String,
}

/// A reply as plain values.
pub open spec fn reply_view(r: Reply) -> (u16, Seq<(Seq<char>, Seq<char>)>, Seq<char>) {
    (r.status, r.headers@.map_values(|h: (String, String)| (h.0@, h.1@)), r.body@)
}

fn reply(status: u16, headers: Vec<(String, String)>, body: &Vec<char>) -> (res: Reply)
    ensures
        res.status == status,
        res.headers == headers,
        res.body@ == body@,
{
    Reply { status, headers, body: string_of(body) }
}

fn header(name: &str, value: &Vec<char>) -> (res: (String, String))
    ensures
        res.0@ == name@,
        res.1@ == value@,
{
    (string_of(&chars_of(name)), string_of(value))
}

// ───────────────────────── hash lists ─────────────────────────

/// Is the character a separator of hash lists?
pub open spec fn is_hash_sep(c: char) -> bool {
    c == '+' || c == ','
}

/// The trimmed piece, as a list of zero or one token.
pub open spec fn finish_token(cur: Seq<char>) -> Seq<Seq<char>> {
    if trim(cur).len() > 0 {
        seq![trim(cur)]
    } else {
        seq![]
    }
}

/// The tokens of `s[i..]`, the current piece being `cur`: pieces split at
/// `+` and `,`, trimmed, empty ones dropped.
pub open spec fn tokens_from(s: Seq<char>, i: int, cur: Seq<char>) -> Seq<Seq<char>>
    decreases s.len() - i,
{
    if i < 0 || i >= s.len() {
        finish_token(cur)
    } else if is_hash_sep(s[i]) {
        finish_token(cur) + tokens_from(s, i + 1, seq![])
    } else {
        tokens_from(s, i + 1, cur.push(s[i]))
    }
}

/// `s.split(|c| c == '+' || c == ',').map(str::trim).filter(|s| !s.is_empty())`.
pub open spec fn hash_tokens(s: Seq<char>) -> Seq<Seq<char>> {
    tokens_from(s, 0, seq![])
}

/// The hashes of a `+`/`,`-separated list, trimmed, empty ones dropped.
pub fn split_hash_list(list: &str) -> (res: Vec<String>)
    ensures
        strs(res@) == hash_tokens(list@),
{
    let s = chars_of(list);
    let mut res: Vec<String> = Vec::new();
    let mut cur: Vec<char> = Vec::new();
    let mut i: usize = 0;
    while i < s.len()
        invariant
            i <= s@.len(),
            s@ == list@,
            strs(res@) + tokens_from(s@, i as int, cur@) == hash_tokens(list@),
        decreases s.len() - i,
    {
        if s[i] == '+' || s[i] == ',' {
            let t = trim_vec(&cur);
            let ghost before = strs(res@);
            if t.len() > 0 {
                let ts = string_of(&t);
                res.push(ts);
                assert(strs(res@) =~= before.push(t@));
            }
            proof {
                assert(strs(res@) + tokens_from(s@, i + 1, seq![]) =~= before + finish_token(cur@) + tokens_from(
                    s@,
                    i + 1,
                    seq![],
                ));
            }
            cur = Vec::new();
            assert(cur@ =~= Seq::<char>::empty());
        } else {
            cur.push(s[i]);
        }
        i += 1;
    }
    let t = trim_vec(&cur);
    let ghost before = strs(res@);
    if t.len() > 0 {
        let ts = string_of(&t);
        res.push(ts);
        assert(strs(res@) =~= before.push(t@));
    }
    assert(strs(res@) =~= before + finish_token(cur@));
    res
}

// ───────────────────────── finding bodies ─────────────────────────

/// The positions of the bodies whose hash starts with `h`, in index order.
pub open spec fn match_idx(es: Seq<(String, BodyEntry)>, h: Seq<char>) -> Seq<int>
    decreases es.len(),
{
    if es.len() == 0 {
        seq![]
    } else if starts_with(es.last().0@, h) {
        match_idx(es.drop_last(), h).push(es.len() - 1)
    } else {
        match_idx(es.drop_last(), h)
    }
}

proof fn lemma_match_idx_bounds(es: Seq<(String, BodyEntry)>, h: Seq<char>)
    ensures
        forall|k: int| 0 <= k < match_idx(es, h).len() ==> 0 <= #[trigger] match_idx(es, h)[k] < es.len(),
    decreases es.len(),
{
    if es.len() > 0 {
        let d = es.drop_last();
        lemma_match_idx_bounds(d, h);
        let p = match_idx(d, h);
        assert forall|k: int| 0 <= k < match_idx(es, h).len() implies 0 <= #[trigger] match_idx(es, h)[k] < es.len() by {
            if starts_with(es.last().0@, h) {
                assert(match_idx(es, h) == p.push(es.len() - 1));
                if k < p.len() {
                    assert(match_idx(es, h)[k] == p[k]);
                }
            } else {
                assert(match_idx(es, h) == p);
            }
        }
    }
}

/// How a hash or hash prefix resolves against the bodies.
pub enum BodyLookup {
    /// The exact hash is indexed.
    Exact,
    /// The prefix names exactly one body, at this index position.
    Unique(usize),
    /// Nothing matches.
    Missing,
    /// Several bodies match, at these index positions.
    Ambiguous(Vec<usize>),
}

/// The index positions as integers.
pub open spec fn idx_view(v: Seq<usize>) -> Seq<int> {
    v.map_values(|i: usize| i as int)
}

impl DaemonCache {
    /// The positions of the bodies whose hash starts with `h`.
    fn prefix_matches(&self, h: &str) -> (res: Vec<usize>)
        ensures
            idx_view(res@) == match_idx(self.bodies.entry_seq(), h@),
    {
        let hv = chars_of(h);
        let n = self.bodies.len();
        let ghost es = self.bodies.entry_seq();
        let mut res: Vec<usize> = Vec::new();
        let mut i: usize = 0;
        while i < n
            invariant
                i <= n,
                n == es.len(),
                es == self.bodies.entry_seq(),
                hv@ == h@,
                idx_view(res@) == match_idx(es.take(i as int), h@),
            decreases n - i,
        {
            let (k, _) = self.bodies.entry(i);
            let kv = chars_of(k.as_str());
            proof {
                let t = es.take(i + 1);
                assert(t.drop_last() =~= es.take(i as int));
                assert(t.last() == es[i as int]);
            }
            if vec_starts_with(&kv, &hv) {
                let ghost before = idx_view(res@);
                res.push(i);
                assert(idx_view(res@) =~= before.push(i as int));
            }
            i += 1;
        }
        assert(es.take(n as int) =~= es);
        res
    }

    /// Resolve a hash or hash prefix.
    pub fn lookup_body(&self, h: &str) -> (res: BodyLookup)
        ensures
            match res {
                BodyLookup::Exact => self.bodies.spec_map().dom().contains(h@),
                BodyLookup::Unique(i) => !self.bodies.spec_map().dom().contains(h@)
                    && match_idx(self.bodies.entry_seq(), h@) == seq![i as int]
                    && i < self.bodies.entry_seq().len(),
                BodyLookup::Missing => !self.bodies.spec_map().dom().contains(h@)
                    && match_idx(self.bodies.entry_seq(), h@).len() == 0,
                BodyLookup::Ambiguous(v) => !self.bodies.spec_map().dom().contains(h@)
                    && idx_view(v@) == match_idx(self.bodies.entry_seq(), h@) && v@.len() >= 2,
            },
    {
        if self.bodies.contains_key(h) {
            return BodyLookup::Exact;
        }
        let ms = self.prefix_matches(h);
        proof {
            lemma_match_idx_bounds(self.bodies.entry_seq(), h@);
        }
        if ms.len() == 0 {
            BodyLookup::Missing
        } else if ms.len() == 1 {
            let i = ms[0];
            assert(idx_view(ms@)[0] == i as int);
            assert(match_idx(self.bodies.entry_seq(), h@) =~= seq![i as int]);
            BodyLookup::Unique(i)
        } else {
            BodyLookup::Ambiguous(ms)
        }
    }
}

// ───────────────────────── GET /<hash> ─────────────────────────

/// A body under its file header.
pub open spec fn plain_block(dp: Seq<char>, body: Seq<char>) -> Seq<char> {
    "//--+ file:///"@ + dp + "\n"@ + body
}

/// A body under its file header and hash.
pub open spec fn hashed_block(dp: Seq<char>, hash: Seq<char>, body: Seq<char>) -> Seq<char> {
    "//--+ file:///"@ + dp + "\n// Hash: "@ + hash + "\n"@ + body
}

/// The headers sent with one body.
pub open spec fn body_headers(e: BodyEntry, dp: Seq<char>, hash: Seq<char>) -> Seq<(Seq<char>, Seq<char>)> {
    seq![
        ("content-type"@, "text/plain; charset=utf-8"@),
        ("x-loc"@, decimal(e.meta.loc as nat)),
        ("x-byte-size"@, decimal(e.meta.byte_size as nat)),
        ("x-filepath"@, dp),
        ("x-hash"@, hash),
    ]
}

/// The display path of a body's file.
pub open spec fn body_path(e: BodyEntry, ids: Seq<Seq<char>>) -> Seq<char> {
    spec_strip_repo_prefix(e.meta.filepath@, ids)
}

/// The lines that list the bodies an ambiguous prefix matches.
pub open spec fn ambiguity_lines(es: Seq<(String, BodyEntry)>, ms: Seq<int>, ids: Seq<Seq<char>>, gap: Seq<char>) -> Seq<Seq<char>> {
    ms.map_values(|i: int| "  "@ + es[i].0@ + gap + decimal(es[i].1.meta.loc as nat) + " LOC "@ + gap.drop_first() + "("@ + body_path(es[i].1, ids) + ")"@)
}

/// The answer for a single hash or prefix.
pub open spec fn single_body_reply(c: DaemonCache, h: Seq<char>, ids: Seq<Seq<char>>) -> (u16, Seq<(Seq<char>, Seq<char>)>, Seq<char>) {
    let es = c.bodies.entry_seq();
    let m = c.bodies.spec_map();
    if m.dom().contains(h) {
        let dp = body_path(m[h], ids);
        (200, body_headers(m[h], dp, h), plain_block(dp, m[h].body@))
    } else {
        let ms = match_idx(es, h);
        if ms.len() == 0 {
            (404, seq![], "No hash found matching prefix '"@ + h + "'"@)
        } else if ms.len() == 1 {
            let e = es[ms[0]].1;
            let dp = body_path(e, ids);
            (200, body_headers(e, dp, es[ms[0]].0@), hashed_block(dp, es[ms[0]].0@, e.body@))
        } else {
            (
                409,
                seq![],
                "Ambiguous prefix '"@ + h + "' matches "@ + decimal(ms.len()) + " hashes:\n"@ + join(
                    ambiguity_lines(es, ms, ids, seq![' ']),
                    seq!['\n'],
                ),
            )
        }
    }
}

/// The blocks found, their total line count and the hashes not found, for
/// the first hashes of a list.
pub open spec fn multi_state(c: DaemonCache, hs: Seq<Seq<char>>, ids: Seq<Seq<char>>) -> (Seq<Seq<char>>, nat, Seq<Seq<char>>)
    decreases hs.len(),
{
    if hs.len() == 0 {
        (seq![], 0, seq![])
    } else {
        let prev = multi_state(c, hs.drop_last(), ids);
        let h = hs.last();
        let es = c.bodies.entry_seq();
        let m = c.bodies.spec_map();
        let ms = match_idx(es, h);
        if m.dom().contains(h) {
            let e = m[h];
            (prev.0.push(hashed_block(body_path(e, ids), h, e.body@)), prev.1 + e.meta.loc as nat, prev.2)
        } else if ms.len() == 1 {
            let e = es[ms[0]].1;
            (prev.0.push(hashed_block(body_path(e, ids), es[ms[0]].0@, e.body@)), prev.1 + e.meta.loc as nat, prev.2)
        } else if ms.len() == 0 {
            (prev.0, prev.1, prev.2.push(h))
        } else {
            (prev.0, prev.1, prev.2.push(h + " (ambiguous)"@))
        }
    }
}

/// Some hash of the list matches no stored hash, not even as a prefix.
pub open spec fn has_missing(c: DaemonCache, hs: Seq<Seq<char>>) -> bool
    decreases hs.len(),
{
    if hs.len() == 0 {
        false
    } else {
        has_missing(c, hs.drop_last()) || (!c.bodies.spec_map().dom().contains(hs.last()) && match_idx(
            c.bodies.entry_seq(),
            hs.last(),
        ).len() == 0)
    }
}

/// The answer to `GET /<hashes>`: a hash that matches nothing is answered
/// 404, an ambiguous prefix 409, as for a single hash.
pub open spec fn spec_body_reply(c: DaemonCache, list: Seq<char>, ids: Seq<Seq<char>>) -> (u16, Seq<(Seq<char>, Seq<char>)>, Seq<char>) {
    let hs = hash_tokens(list);
    if hs.len() == 0 {
        (400, seq![], "No hashes provided"@)
    } else if hs.len() == 1 {
        single_body_reply(c, hs[0], ids)
    } else {
        let st = multi_state(c, hs, ids);
        if st.2.len() > 0 {
            (if has_missing(c, hs) { 404u16 } else { 409u16 }, seq![], "Hashes not found: "@ + join(st.2, ", "@))
        } else {
            (200, seq![("content-type"@, "text/plain; charset=utf-8"@), ("x-loc"@, decimal(st.1))], join(st.0, "\n\n"@))
        }
    }
}

fn text_body_headers(e: &BodyEntry, dp: &String, hash: &str) -> (res: Vec<(String, String)>)
    ensures
        res@.map_values(|h: (String, String)| (h.0@, h.1@)) == body_headers(*e, dp@, hash@),
{
    let mut hs: Vec<(String, String)> = Vec::new();
    hs.push(header("content-type", &chars_of("text/plain; charset=utf-8")));
    hs.push(header("x-loc", &decimal_vec(e.meta.loc as u128)));
    hs.push(header("x-byte-size", &decimal_vec(e.meta.byte_size as u128)));
    hs.push(header("x-filepath", &chars_of(dp.as_str())));
    hs.push(header("x-hash", &chars_of(hash)));
    assert(hs@.map_values(|h: (String, String)| (h.0@, h.1@)) =~= body_headers(*e, dp@, hash@));
    hs
}

fn block_with_hash(dp: &String, hash: &str, body: &String) -> (res: Vec<char>)
    ensures
        res@ == hashed_block(dp@, hash@, body@),
{
    let mut v = chars_of("//--+ file:///");
    append_str(&mut v, dp.as_str());
    append_str(&mut v, "\n// Hash: ");
    append_str(&mut v, hash);
    append_str(&mut v, "\n");
    append_str(&mut v, body.as_str());
    v
}

impl DaemonCache {
    /// The lines listing the bodies at the given positions.
    fn ambiguity_list(&self, ms: &Vec<usize>, repo_ids: &[String], gap: &str) -> (res: Vec<Vec<char>>)
        requires
            gap@.len() >= 1,
            forall|k: int| 0 <= k < ms@.len() ==> #[trigger] ms@[k] < self.bodies.entry_seq().len(),
        ensures
            views(res@) == ambiguity_lines(self.bodies.entry_seq(), idx_view(ms@), strs(repo_ids@), gap@),
    {
        let ghost es = self.bodies.entry_seq();
        let ghost want = ambiguity_lines(es, idx_view(ms@), strs(repo_ids@), gap@);
        let gv = chars_of(gap);
        let gap_rest = crate::text::slice_vec(&gv, 1, gv.len());
        assert(gap_rest@ =~= gap@.drop_first());
        let mut res: Vec<Vec<char>> = Vec::new();
        let mut i: usize = 0;
        while i < ms.len()
            invariant
                i <= ms@.len(),
                es == self.bodies.entry_seq(),
                want == ambiguity_lines(es, idx_view(ms@), strs(repo_ids@), gap@),
                gv@ == gap@,
                gap_rest@ == gap@.drop_first(),
                forall|k: int| 0 <= k < ms@.len() ==> #[trigger] ms@[k] < es.len(),
                views(res@) == want.take(i as int),
            decreases ms.len() - i,
        {
            let (k, e) = self.bodies.entry(ms[i]);
            let dp = strip_repo_prefix(e.meta.filepath.as_str(), repo_ids);
            let mut line = chars_of("  ");
            append_str(&mut line, k.as_str());
            append(&mut line, &gv);
            append(&mut line, &decimal_vec(e.meta.loc as u128));
            append_str(&mut line, " LOC ");
            append(&mut line, &gap_rest);
            append_str(&mut line, "(");
            append_str(&mut line, dp.as_str());
            append_str(&mut line, ")");
            let ghost before = views(res@);
            res.push(line);
            proof {
                assert(line@ == want[i as int]);
                assert(views(res@) =~= before.push(line@));
                assert(want.take(i + 1) =~= want.take(i as int).push(want[i as int]));
            }
            i += 1;
        }
        assert(want.take(ms@.len() as int) =~= want);
        res
    }

    /// The answer for a single hash or prefix.
    fn single_body(&self, h: &str, repo_ids: &[String]) -> (res: Reply)
        ensures
            reply_view(res) == single_body_reply(*self, h@, strs(repo_ids@)),
    {
        let ghost es = self.bodies.entry_seq();
        let _ = self.bodies.len();
        match self.lookup_body(h) {
            BodyLookup::Exact => {
                let e = match self.bodies.get(h) {
                    Some(e) => e,
                    None => {
                        return Reply { status: 0, headers: Vec::new(), body: String::new() };
                    },
                };
                let dp = strip_repo_prefix(e.meta.filepath.as_str(), repo_ids);
                let mut body = chars_of("//--+ file:///");
                append_str(&mut body, dp.as_str());
                append_str(&mut body, "\n");
                append_str(&mut body, e.body.as_str());
                let r = reply(200, text_body_headers(e, &dp, h), &body);
                assert(reply_view(r).2 == single_body_reply(*self, h@, strs(repo_ids@)).2);
                assert(reply_view(r).1 == single_body_reply(*self, h@, strs(repo_ids@)).1);
                r
            },
            BodyLookup::Unique(i) => {
                let (k, e) = self.bodies.entry(i);
                let dp = strip_repo_prefix(e.meta.filepath.as_str(), repo_ids);
                let body = block_with_hash(&dp, k.as_str(), &e.body);
                let r = reply(200, text_body_headers(e, &dp, k.as_str()), &body);
                assert(reply_view(r).2 == single_body_reply(*self, h@, strs(repo_ids@)).2);
                assert(reply_view(r).1 == single_body_reply(*self, h@, strs(repo_ids@)).1);
                r
            },
            BodyLookup::Missing => {
                let mut body = chars_of("No hash found matching prefix '");
                append_str(&mut body, h);
                append_str(&mut body, "'");
                let r = reply(404, Vec::new(), &body);
                assert(reply_view(r).1 =~= Seq::<(Seq<char>, Seq<char>)>::empty());
                assert(reply_view(r).2 == single_body_reply(*self, h@, strs(repo_ids@)).2);
                r
            },
            BodyLookup::Ambiguous(ms) => {
                proof {
                    lemma_match_idx_bounds(es, h@);
                    assert forall|k: int| 0 <= k < ms@.len() implies #[trigger] ms@[k] < es.len() by {
                        assert(idx_view(ms@)[k] == ms@[k] as int);
                    }
                }
                proof {
                    reveal_strlit(" ");
                    assert(" "@ =~= seq![' ']);
                }
                let lines = self.ambiguity_list(&ms, repo_ids, " ");
                let mut body = chars_of("Ambiguous prefix '");
                append_str(&mut body, h);
                append_str(&mut body, "' matches ");
                append(&mut body, &decimal_vec(ms.len() as u128));
                append_str(&mut body, " hashes:\n");
                let nl = vec!['\n'];
                assert(nl@ =~= seq!['\n']);
                append(&mut body, &join_with(&lines, &nl));
                let r = reply(409, Vec::new(), &body);
                assert(reply_view(r).1 =~= Seq::<(Seq<char>, Seq<char>)>::empty());
                assert(idx_view(ms@).len() == ms@.len());
                assert(reply_view(r).2 == single_body_reply(*self, h@, strs(repo_ids@)).2);
                r
            },
        }
    }
}

impl DaemonCache {
    /// The answer to `GET /<hashes>`: one body (exact hash or unique
    /// prefix), or several joined by blank lines, or the error that applies.
    pub fn body_reply(&self, list: &str, repo_ids: &[String]) -> (res: Reply)
        ensures
            reply_view(res) == spec_body_reply(*self, list@, strs(repo_ids@)),
    {
        let ghost ids = strs(repo_ids@);
        let ghost es = self.bodies.entry_seq();
        let hs = split_hash_list(list);
        let ghost hv = strs(hs@);
        if hs.len() == 0 {
            let r = reply(400, Vec::new(), &chars_of("No hashes provided"));
            assert(reply_view(r).1 =~= Seq::<(Seq<char>, Seq<char>)>::empty());
            return r;
        }
        if hs.len() == 1 {
            assert(hv[0] == hs@[0]@);
            return self.single_body(hs[0].as_str(), repo_ids);
        }
        let mut results: Vec<Vec<char>> = Vec::new();
        let mut total: u128 = 0;
        let mut not_found: Vec<Vec<char>> = Vec::new();
        let mut any_missing = false;
        let mut i: usize = 0;
        while i < hs.len()
            invariant
                i <= hs@.len(),
                hv == strs(hs@),
                ids == strs(repo_ids@),
                es == self.bodies.entry_seq(),
                ({
                    let st = multi_state(*self, hv.take(i as int), ids);
                    &&& views(results@) == st.0
                    &&& total as nat == st.1
                    &&& views(not_found@) == st.2
                }),
                any_missing == has_missing(*self, hv.take(i as int)),
                total <= i * (usize::MAX as int),
            decreases hs.len() - i,
        {
            let h = hs[i].as_str();
            let ghost prev = multi_state(*self, hv.take(i as int), ids);
            proof {
                assert(hv.take(i + 1).drop_last() =~= hv.take(i as int));
                assert(hv.take(i + 1).last() == h@);
            }
            let _ = self.bodies.len();
            let ghost old_results = views(results@);
            let ghost old_nf = views(not_found@);
            match self.lookup_body(h) {
                BodyLookup::Exact => {
                    match self.bodies.get(h) {
                        Some(e) => {
                            let dp = strip_repo_prefix(e.meta.filepath.as_str(), repo_ids);
                            results.push(block_with_hash(&dp, h, &e.body));
                            assert(views(results@) =~= old_results.push(hashed_block(dp@, h@, e.body@)));
                            assert(total + e.meta.loc <= (i + 1) * (usize::MAX as int)) by (nonlinear_arith)
                                requires
                                    total <= i * (usize::MAX as int),
                                    e.meta.loc <= usize::MAX,
                            ;
                            proof {
                                assert((i + 1) * (usize::MAX as int) <= usize::MAX * (usize::MAX as int)) by (nonlinear_arith)
                                    requires
                                        i + 1 <= usize::MAX,
                                ;
                                assert(usize::MAX * (usize::MAX as int) < u128::MAX) by (nonlinear_arith)
                                    requires
                                        usize::MAX <= u64::MAX,
                                ;
                            }
                            total = total + e.meta.loc as u128;
                        },
                        None => {},
                    }
                },
                BodyLookup::Unique(j) => {
                    let (k, e) = self.bodies.entry(j);
                    let dp = strip_repo_prefix(e.meta.filepath.as_str(), repo_ids);
                    results.push(block_with_hash(&dp, k.as_str(), &e.body));
                    assert(views(results@) =~= old_results.push(hashed_block(dp@, k@, e.body@)));
                    assert(total + e.meta.loc <= (i + 1) * (usize::MAX as int)) by (nonlinear_arith)
                        requires
                            total <= i * (usize::MAX as int),
                            e.meta.loc <= usize::MAX,
                    ;
                    proof {
                        assert((i + 1) * (usize::MAX as int) <= usize::MAX * (usize::MAX as int)) by (nonlinear_arith)
                            requires
                                i + 1 <= usize::MAX,
                        ;
                        assert(usize::MAX * (usize::MAX as int) < u128::MAX) by (nonlinear_arith)
                            requires
                                usize::MAX <= u64::MAX,
                        ;
                    }
                    total = total + e.meta.loc as u128;
                },
                BodyLookup::Missing => {
                    any_missing = true;
                    not_found.push(chars_of(h));
                    assert(views(not_found@) =~= old_nf.push(h@));
                    assert(total <= (i + 1) * (usize::MAX as int)) by (nonlinear_arith)
                        requires
                            total <= i * (usize::MAX as int),
                    ;
                },
                BodyLookup::Ambiguous(_) => {
                    let mut v = chars_of(h);
                    append_str(&mut v, " (ambiguous)");
                    not_found.push(v);
                    assert(views(not_found@) =~= old_nf.push(h@ + " (ambiguous)"@));
                    assert(total <= (i + 1) * (usize::MAX as int)) by (nonlinear_arith)
                        requires
                            total <= i * (usize::MAX as int),
                    ;
                },
            }
            i += 1;
        }
        assert(hv.take(hs@.len() as int) =~= hv);
        if not_found.len() > 0 {
            let mut body = chars_of("Hashes not found: ");
            append(&mut body, &join_with(&not_found, &chars_of(", ")));
            let status: u16 = if any_missing { 404 } else { 409 };
            let r = reply(status, Vec::new(), &body);
            assert(reply_view(r).1 =~= Seq::<(Seq<char>, Seq<char>)>::empty());
            return r;
        }
        let mut headers: Vec<(String, String)> = Vec::new();
        headers.push(header("content-type", &chars_of("text/plain; charset=utf-8")));
        headers.push(header("x-loc", &decimal_vec(total)));
        let body = join_with(&results, &chars_of("\n\n"));
        let r = reply(200, headers, &body);
        assert(reply_view(r).1 =~= seq![("content-type"@, "text/plain; charset=utf-8"@), ("x-loc"@, decimal(total as nat))]);
        r
    }
}

/// A hash as typed in a request: not empty, no `+` or `,`, and no
/// whitespace around it.
pub open spec fn plain_token(h: Seq<char>) -> bool {
    &&& h.len() > 0
    &&& trim(h) == h
    &&& forall|i: int| 0 <= i < h.len() ==> !is_hash_sep(#[trigger] h[i])
}

proof fn lemma_tokens_without_sep(s: Seq<char>, i: int, cur: Seq<char>)
    requires
        0 <= i <= s.len(),
        forall|j: int| i <= j < s.len() ==> !is_hash_sep(#[trigger] s[j]),
    ensures
        tokens_from(s, i, cur) == finish_token(cur + s.skip(i)),
    decreases s.len() - i,
{
    if i < s.len() {
        lemma_tokens_without_sep(s, i + 1, cur.push(s[i]));
        assert(cur.push(s[i]) + s.skip(i + 1) =~= cur + s.skip(i));
    } else {
        assert(cur + s.skip(i) =~= cur);
    }
}

/// A plain token is a list of exactly one hash.
pub proof fn lemma_plain_token_alone(h: Seq<char>)
    requires
        plain_token(h),
    ensures
        hash_tokens(h) == seq![h],
{
    lemma_tokens_without_sep(h, 0, seq![]);
    assert(Seq::<char>::empty() + h.skip(0) =~= h);
}

/// A hash of lowercase hex digits, as the index makes them, is a plain token.
pub proof fn lemma_hex_hash_is_plain(h: Seq<char>)
    requires
        h.len() > 0,
        crate::stable_hash::is_hex_text(h),
    ensures
        plain_token(h),
{
    assert(!crate::text::is_ws(h.last())) by {
        assert(('0' <= h[h.len() - 1] && h[h.len() - 1] <= '9') || ('a' <= h[h.len() - 1] && h[h.len() - 1] <= 'f'));
    }
    assert(crate::text::trim_end(h) == h);
    assert(!crate::text::is_ws(h[0])) by {
        assert(('0' <= h[0] && h[0] <= '9') || ('a' <= h[0] && h[0] <= 'f'));
    }
    assert(crate::text::trim_start(h) == h);
    assert forall|i: int| 0 <= i < h.len() implies !is_hash_sep(#[trigger] h[i]) by {
        assert(('0' <= h[i] && h[i] <= '9') || ('a' <= h[i] && h[i] <= 'f'));
    }
}

/// Fetching a stored body by its full hash answers it: status 200, the
/// body's headers, and its text under the line that names its file.
pub proof fn lemma_fetch_stored_body(c: DaemonCache, h: Seq<char>, ids: Seq<Seq<char>>)
    requires
        plain_token(h),
        c.bodies.spec_map().dom().contains(h),
    ensures
        spec_body_reply(c, h, ids) == ({
            let e = c.bodies.spec_map()[h];
            let dp = body_path(e, ids);
            (200u16, body_headers(e, dp, h), plain_block(dp, e.body@))
        }),
{
    lemma_plain_token_alone(h);
}

/// What a scan stores, a fetch gives back: after a reindex, fetching the
/// full hash of a body the scan produced answers the last body the scan
/// produced under that hash, unless the hash belonged to a file that went
/// stale.
pub proof fn lemma_fetch_after_scan(
    before: DaemonCache,
    after: DaemonCache,
    fs: Seq<crate::scanner::ProcessedFile>,
    k: int,
    ids: Seq<Seq<char>>,
)
    requires
        after.bodies.spec_map() == crate::reindex::bodies_after(before.bodies.spec_map(), fs).remove_keys(
            crate::reindex::hashes_under(
                before.files.spec_map(),
                crate::reindex::stale_paths(before.files.spec_map(), crate::reindex::rel_paths(fs).to_set()),
            ),
        ),
        0 <= k < crate::reindex::rust_bodies(fs).len(),
        forall|j: int|
            k < j < crate::reindex::rust_bodies(fs).len() ==> (#[trigger] crate::reindex::rust_bodies(fs)[j]).0@
                != crate::reindex::rust_bodies(fs)[k].0@,
        !crate::reindex::hashes_under(
            before.files.spec_map(),
            crate::reindex::stale_paths(before.files.spec_map(), crate::reindex::rel_paths(fs).to_set()),
        ).contains(crate::reindex::rust_bodies(fs)[k].0@),
        plain_token(crate::reindex::rust_bodies(fs)[k].0@),
    ensures
        ({
            let t = crate::reindex::rust_bodies(fs)[k];
            let e = crate::reindex::body_entry(t);
            let dp = body_path(e, ids);
            spec_body_reply(after, t.0@, ids) == (200u16, body_headers(e, dp, t.0@), plain_block(dp, t.2@))
        }),
{
    crate::reindex::lemma_scan_stores_bodies(before.bodies.spec_map(), before.files.spec_map(), fs, k);
    lemma_fetch_stored_body(after, crate::reindex::rust_bodies(fs)[k].0@, ids);
}

// ───────────────────────── GET /info/<hashes> ─────────────────────────

/// Where a body comes from and how large it is.
#[derive(Clone, Debug)]
pub struct BodyInfoResponse {
    pub hash: String,
    pub filepath: String,
    pub loc: usize,
    pub byte_size: usize,
}

/// A body's information as plain values.
pub open spec fn info_view(b: BodyInfoResponse) -> (Seq<char>, Seq<char>, nat, nat) {
    (b.hash@, b.filepath@, b.loc as nat, b.byte_size as nat)
}

pub open spec fn info_views(bs: Seq<BodyInfoResponse>) -> Seq<(Seq<char>, Seq<char>, nat, nat)> {
    bs.map_values(|b: BodyInfoResponse| info_view(b))
}

/// The information shown for a body under a hash.
pub open spec fn entry_info(hash: Seq<char>, e: BodyEntry, ids: Seq<Seq<char>>) -> (Seq<char>, Seq<char>, nat, nat) {
    (hash, body_path(e, ids), e.meta.loc as nat, e.meta.byte_size as nat)
}

/// The information of the bodies of a list, or the first error: a hash
/// nothing matches (404) or an ambiguous prefix (409).
pub open spec fn spec_body_infos(c: DaemonCache, hs: Seq<Seq<char>>, ids: Seq<Seq<char>>) -> Result<
    Seq<(Seq<char>, Seq<char>, nat, nat)>,
    (u16, Seq<char>),
>
    decreases hs.len(),
{
    if hs.len() == 0 {
        Ok(seq![])
    } else {
        match spec_body_infos(c, hs.drop_last(), ids) {
            Err(e) => Err(e),
            Ok(prev) => {
                let h = hs.last();
                let es = c.bodies.entry_seq();
                let m = c.bodies.spec_map();
                let ms = match_idx(es, h);
                if m.dom().contains(h) {
                    Ok(prev.push(entry_info(h, m[h], ids)))
                } else if ms.len() == 0 {
                    Err((404, "No hash found matching '"@ + h + "'"@))
                } else if ms.len() == 1 {
                    Ok(prev.push(entry_info(es[ms[0]].0@, es[ms[0]].1, ids)))
                } else {
                    Err(
                        (
                            409,
                            "Ambiguous prefix '"@ + h + "' matches "@ + decimal(ms.len()) + " hashes:\n"@ + join(
                                ambiguity_lines(es, ms, ids, seq![' ', ' ']),
                                seq!['\n'],
                            ),
                        ),
                    )
                }
            },
        }
    }
}

fn make_info(hash: &str, e: &BodyEntry, repo_ids: &[String]) -> (res: BodyInfoResponse)
    ensures
        info_view(res) == entry_info(hash@, *e, strs(repo_ids@)),
{
    BodyInfoResponse {
        hash: string_of(&chars_of(hash)),
        filepath: strip_repo_prefix(e.meta.filepath.as_str(), repo_ids),
        loc: e.meta.loc,
        byte_size: e.meta.byte_size,
    }
}

impl DaemonCache {
    /// The information of the bodies a `+`/`,`-separated list names, or the
    /// error reply for the first hash that does not resolve.
    pub fn body_infos(&self, list: &str, repo_ids: &[String]) -> (res: Result<Vec<BodyInfoResponse>, Reply>)
        ensures
            match spec_body_infos(*self, hash_tokens(list@), strs(repo_ids@)) {
                Ok(v) => res matches Ok(r) && info_views(r@) == v,
                Err(e) => res matches Err(r) && reply_view(r) == (e.0, Seq::<(Seq<char>, Seq<char>)>::empty(), e.1),
            },
    {
        let ghost ids = strs(repo_ids@);
        let ghost es = self.bodies.entry_seq();
        let hs = split_hash_list(list);
        let ghost hv = strs(hs@);
        let mut infos: Vec<BodyInfoResponse> = Vec::new();
        let mut i: usize = 0;
        assert(hv.take(0) =~= Seq::<Seq<char>>::empty());
        assert(info_views(infos@) =~= Seq::<(Seq<char>, Seq<char>, nat, nat)>::empty());
        while i < hs.len()
            invariant
                i <= hs@.len(),
                hv == strs(hs@),
                hv == hash_tokens(list@),
                ids == strs(repo_ids@),
                es == self.bodies.entry_seq(),
                spec_body_infos(*self, hv.take(i as int), ids) == Ok::<Seq<(Seq<char>, Seq<char>, nat, nat)>, (u16, Seq<char>)>(info_views(infos@)),
            decreases hs.len() - i,
        {
            let h = hs[i].as_str();
            proof {
                assert(hv.take(i + 1).drop_last() =~= hv.take(i as int));
                assert(hv.take(i + 1).last() == h@);
            }
            let _ = self.bodies.len();
            let ghost before = info_views(infos@);
            match self.lookup_body(h) {
                BodyLookup::Exact => {
                    match self.bodies.get(h) {
                        Some(e) => {
                            infos.push(make_info(h, e, repo_ids));
                            assert(info_views(infos@) =~= before.push(entry_info(h@, *e, ids)));
                        },
                        None => {},
                    }
                },
                BodyLookup::Unique(j) => {
                    let (k, e) = self.bodies.entry(j);
                    infos.push(make_info(k.as_str(), e, repo_ids));
                    assert(info_views(infos@) =~= before.push(entry_info(k@, *e, ids)));
                },
                BodyLookup::Missing => {
                    let mut body = chars_of("No hash found matching '");
                    append_str(&mut body, h);
                    append_str(&mut body, "'");
                    let r = reply(404, Vec::new(), &body);
                    proof {
                        assert(reply_view(r).1 =~= Seq::<(Seq<char>, Seq<char>)>::empty());
                        lemma_infos_stay_err(*self, hv, ids, i as int + 1, hv.len() as int);
                        assert(hv.take(hv.len() as int) =~= hv);
                    }
                    return Err(r);
                },
                BodyLookup::Ambiguous(ms) => {
                    proof {
                        lemma_match_idx_bounds(es, h@);
                        assert forall|k: int| 0 <= k < ms@.len() implies #[trigger] ms@[k] < es.len() by {
                            assert(idx_view(ms@)[k] == ms@[k] as int);
                        }
                        reveal_strlit("  ");
                        assert("  "@ =~= seq![' ', ' ']);
                    }
                    let lines = self.ambiguity_list(&ms, repo_ids, "  ");
                    let mut body = chars_of("Ambiguous prefix '");
                    append_str(&mut body, h);
                    append_str(&mut body, "' matches ");
                    append(&mut body, &decimal_vec(ms.len() as u128));
                    append_str(&mut body, " hashes:\n");
                    let nl = vec!['\n'];
                    assert(nl@ =~= seq!['\n']);
                    append(&mut body, &join_with(&lines, &nl));
                    let r = reply(409, Vec::new(), &body);
                    proof {
                        assert(reply_view(r).1 =~= Seq::<(Seq<char>, Seq<char>)>::empty());
                        assert(idx_view(ms@).len() == ms@.len());
                        lemma_infos_stay_err(*self, hv, ids, i as int + 1, hv.len() as int);
                        assert(hv.take(hv.len() as int) =~= hv);
                    }
                    return Err(r);
                },
            }
            i += 1;
        }
        assert(hv.take(hs@.len() as int) =~= hv);
        Ok(infos)
    }
}

/// Once a prefix of the list fails, the whole list fails with the same error.
proof fn lemma_infos_stay_err(c: DaemonCache, hs: Seq<Seq<char>>, ids: Seq<Seq<char>>, i: int, k: int)
    requires
        0 <= i <= k <= hs.len(),
        spec_body_infos(c, hs.take(i), ids) is Err,
    ensures
        spec_body_infos(c, hs.take(k), ids) == spec_body_infos(c, hs.take(i), ids),
    decreases k - i,
{
    if k > i {
        lemma_infos_stay_err(c, hs, ids, i, k - 1);
        assert(hs.take(k).drop_last() =~= hs.take(k - 1));
    }
}

// ───────────────────────── GET /file/<path>, /file-info/<path> ─────────────────────────

/// The first repo-prefixed form of `path` (from position `i` on) that is indexed.
pub open spec fn prefixed_indexed(files: Map<Seq<char>, FileEntry>, path: Seq<char>, ids: Seq<Seq<char>>, i: int) -> Option<Seq<char>>
    decreases ids.len() - i,
{
    if i < 0 || i >= ids.len() {
        None
    } else if files.dom().contains(dir_prefix(ids[i]) + path) {
        Some(dir_prefix(ids[i]) + path)
    } else {
        prefixed_indexed(files, path, ids, i + 1)
    }
}

proof fn lemma_prefixed_indexed(files: Map<Seq<char>, FileEntry>, path: Seq<char>, ids: Seq<Seq<char>>, i: int)
    ensures
        prefixed_indexed(files, path, ids, i) matches Some(a) ==> files.dom().contains(a),
    decreases ids.len() - i,
{
    if 0 <= i < ids.len() {
        lemma_prefixed_indexed(files, path, ids, i + 1);
    }
}

/// The indexed path a request names: the path itself, or the first
/// repo-prefixed form of it that is indexed.
pub open spec fn resolve_indexed(files: Map<Seq<char>, FileEntry>, path: Seq<char>, ids: Seq<Seq<char>>) -> Option<Seq<char>> {
    if files.dom().contains(path) {
        Some(path)
    } else {
        prefixed_indexed(files, path, ids, 0)
    }
}

/// The headers sent with a whole file.
pub open spec fn file_headers(ct: Seq<char>, loc: nat, size: nat, source: Seq<char>, dp: Seq<char>) -> Seq<(Seq<char>, Seq<char>)> {
    seq![
        ("content-type"@, ct),
        ("x-loc"@, decimal(loc)),
        ("x-byte-size"@, decimal(size)),
        ("x-source"@, source),
        ("x-filepath"@, dp),
    ]
}

/// The answer to `GET /file/<path>` for a Rust file, served from the index.
pub open spec fn spec_rust_file_reply(c: DaemonCache, path: Seq<char>, ids: Seq<Seq<char>>) -> (u16, Seq<(Seq<char>, Seq<char>)>, Seq<char>) {
    match resolve_indexed(c.files.spec_map(), path, ids) {
        Some(a) => {
            let e = c.files.spec_map()[a];
            let dp = spec_strip_repo_prefix(a, ids);
            (
                200,
                file_headers("text/plain; charset=utf-8"@, e.loc as nat, e.byte_size as nat, "cache"@, dp),
                plain_block(dp, e.code@),
            )
        },
        None => (404, seq![], "Rust file not indexed yet. Run sync first."@),
    }
}

/// The text after the last dot of a path, or the whole path.
pub open spec fn last_segment(path: Seq<char>) -> Seq<char> {
    path.skip(crate::config::last_index_of(path, '.') + 1)
}

/// The content type served for a file extension.
pub open spec fn content_type(ext: Seq<char>) -> Seq<char> {
    if ext == "json"@ {
        "application/json"@
    } else if ext == "yml"@ || ext == "yaml"@ {
        "text/yaml"@
    } else if ext == "md"@ {
        "text/markdown"@
    } else {
        "text/plain"@
    }
}

/// The answer to `GET /file/<path>` for a file read from the mirror.
pub open spec fn spec_disk_file_reply(path: Seq<char>, ids: Seq<Seq<char>>, content: Seq<char>) -> (u16, Seq<(Seq<char>, Seq<char>)>, Seq<char>) {
    let dp = spec_strip_repo_prefix(path, ids);
    (
        200,
        file_headers(content_type(last_segment(path)), lines(content).len(), utf8(content).len(), "disk"@, dp),
        plain_block(dp, content),
    )
}

fn headers_of_file(ct: &str, loc: usize, size: usize, source: &str, dp: &String) -> (res: Vec<(String, String)>)
    ensures
        res@.map_values(|h: (String, String)| (h.0@, h.1@)) == file_headers(ct@, loc as nat, size as nat, source@, dp@),
{
    let mut hs: Vec<(String, String)> = Vec::new();
    hs.push(header("content-type", &chars_of(ct)));
    hs.push(header("x-loc", &decimal_vec(loc as u128)));
    hs.push(header("x-byte-size", &decimal_vec(size as u128)));
    hs.push(header("x-source", &chars_of(source)));
    hs.push(header("x-filepath", &chars_of(dp.as_str())));
    assert(hs@.map_values(|h: (String, String)| (h.0@, h.1@)) =~= file_headers(ct@, loc as nat, size as nat, source@, dp@));
    hs
}

fn block_plain(dp: &String, text: &str) -> (res: Vec<char>)
    ensures
        res@ == plain_block(dp@, text@),
{
    let mut v = chars_of("//--+ file:///");
    append_str(&mut v, dp.as_str());
    append_str(&mut v, "\n");
    append_str(&mut v, text);
    v
}

/// The content type served for a path, by the text after its last dot.
pub fn content_type_for(path: &str) -> (res: &'static str)
    ensures
        res@ == content_type(last_segment(path@)),
{
    let p = chars_of(path);
    let k = crate::config::last_index(&p, '.', p.len());
    proof {
        assert(p@.take(p@.len() as int) =~= p@);
        crate::config::lemma_last_index_of(p@, '.');
    }
    let start = match k {
        Some(k) => k + 1,
        None => 0,
    };
    let ext = crate::text::slice_vec(&p, start, p.len());
    assert(ext@ =~= last_segment(path@));
    if crate::config::str_vec_equals(&ext, "json") {
        "application/json"
    } else if crate::config::str_vec_equals(&ext, "yml") || crate::config::str_vec_equals(&ext, "yaml") {
        "text/yaml"
    } else if crate::config::str_vec_equals(&ext, "md") {
        "text/markdown"
    } else {
        "text/plain"
    }
}

/// The answer to `GET /file/<path>` for a file read from the mirror.
pub fn disk_file_reply(path: &str, repo_ids: &[String], content: &str) -> (res: Reply)
    ensures
        reply_view(res) == spec_disk_file_reply(path@, strs(repo_ids@), content@),
{
    let dp = strip_repo_prefix(path, repo_ids);
    let loc = crate::text::count_lines(&chars_of(content));
    let size = content.as_bytes().len();
    let ct = content_type_for(path);
    let body = block_plain(&dp, content);
    reply(200, headers_of_file(ct, loc, size, "disk", &dp), &body)
}

impl DaemonCache {
    /// The indexed path a request names: the path itself, or the first
    /// repo-prefixed form of it that is indexed.
    pub fn find_indexed_file(&self, path: &str, repo_ids: &[String]) -> (res: Option<String>)
        ensures
            match resolve_indexed(self.files.spec_map(), path@, strs(repo_ids@)) {
                Some(a) => res matches Some(r) && r@ == a,
                None => res is None,
            },
    {
        if self.files.contains_key(path) {
            return Some(string_of(&chars_of(path)));
        }
        let ghost ids = strs(repo_ids@);
        let mut i: usize = 0;
        while i < repo_ids.len()
            invariant
                i <= repo_ids@.len(),
                ids == strs(repo_ids@),
                !self.files.spec_map().dom().contains(path@),
                prefixed_indexed(self.files.spec_map(), path@, ids, 0) == prefixed_indexed(
                    self.files.spec_map(),
                    path@,
                    ids,
                    i as int,
                ),
            decreases repo_ids.len() - i,
        {
            let mut cand = chars_of(repo_ids[i].as_str());
            cand.push('/');
            append_str(&mut cand, path);
            let cs = string_of(&cand);
            assert(cs@ == dir_prefix(ids[i as int]) + path@);
            if self.files.contains_key(cs.as_str()) {
                return Some(cs);
            }
            i += 1;
        }
        None
    }

    /// The answer to `GET /file/<path>` for a Rust file, served from the index.
    pub fn rust_file_reply(&self, path: &str, repo_ids: &[String]) -> (res: Reply)
        ensures
            reply_view(res) == spec_rust_file_reply(*self, path@, strs(repo_ids@)),
    {
        proof {
            lemma_prefixed_indexed(self.files.spec_map(), path@, strs(repo_ids@), 0);
        }
        match self.find_indexed_file(path, repo_ids) {
            Some(actual) => {
                match self.files.get(actual.as_str()) {
                    Some(e) => {
                        let dp = strip_repo_prefix(actual.as_str(), repo_ids);
                        let body = block_plain(&dp, e.code.as_str());
                        reply(200, headers_of_file("text/plain; charset=utf-8", e.loc, e.byte_size, "cache", &dp), &body)
                    },
                    None => Reply { status: 0, headers: Vec::new(), body: String::new() },
                }
            },
            None => {
                let r = reply(404, Vec::new(), &chars_of("Rust file not indexed yet. Run sync first."));
                assert(reply_view(r).1 =~= Seq::<(Seq<char>, Seq<char>)>::empty());
                r
            },
        }
    }
}

/// A file's size and, for an indexed Rust file, its bodies.
#[derive(Clone, Debug)]
pub struct FileInfoResponse {
    pub filepath: String,
    pub loc: usize,
    pub byte_size: usize,
    pub body_hashes: Vec<BodyInfoResponse>,
    pub source: String,
}

/// The information of the listed hashes that are indexed, in order.
pub open spec fn known_infos(c: DaemonCache, hashes: Seq<Seq<char>>, ids: Seq<Seq<char>>) -> Seq<(Seq<char>, Seq<char>, nat, nat)>
    decreases hashes.len(),
{
    if hashes.len() == 0 {
        seq![]
    } else {
        let prev = known_infos(c, hashes.drop_last(), ids);
        let h = hashes.last();
        if c.bodies.spec_map().dom().contains(h) {
            prev.push(entry_info(h, c.bodies.spec_map()[h], ids))
        } else {
            prev
        }
    }
}

/// The answer to `GET /file-info/<path>` for a Rust file: its information,
/// or `None` where it is not indexed.
pub open spec fn spec_rust_file_info(c: DaemonCache, path: Seq<char>, ids: Seq<Seq<char>>) -> Option<
    (Seq<char>, nat, nat, Seq<(Seq<char>, Seq<char>, nat, nat)>, Seq<char>),
> {
    match resolve_indexed(c.files.spec_map(), path, ids) {
        Some(a) => {
            let e = c.files.spec_map()[a];
            Some(
                (
                    spec_strip_repo_prefix(a, ids),
                    e.loc as nat,
                    e.byte_size as nat,
                    known_infos(c, strs(e.body_hashes@), ids),
                    "cache"@,
                ),
            )
        },
        None => None,
    }
}

/// A file's information as plain values.
pub open spec fn file_info_view(f: FileInfoResponse) -> (Seq<char>, nat, nat, Seq<(Seq<char>, Seq<char>, nat, nat)>, Seq<char>) {
    (f.filepath@, f.loc as nat, f.byte_size as nat, info_views(f.body_hashes@), f.source@)
}

impl DaemonCache {
    /// The information of the listed hashes that are indexed, in order.
    fn known_body_infos(&self, hashes: &Vec<String>, repo_ids: &[String]) -> (res: Vec<BodyInfoResponse>)
        ensures
            info_views(res@) == known_infos(*self, strs(hashes@), strs(repo_ids@)),
    {
        let ghost hv = strs(hashes@);
        let mut res: Vec<BodyInfoResponse> = Vec::new();
        let mut i: usize = 0;
        assert(info_views(res@) =~= Seq::<(Seq<char>, Seq<char>, nat, nat)>::empty());
        while i < hashes.len()
            invariant
                i <= hashes@.len(),
                hv == strs(hashes@),
                info_views(res@) == known_infos(*self, hv.take(i as int), strs(repo_ids@)),
            decreases hashes.len() - i,
        {
            proof {
                assert(hv.take(i + 1).drop_last() =~= hv.take(i as int));
                assert(hv.take(i + 1).last() == hashes@[i as int]@);
            }
            match self.bodies.get(hashes[i].as_str()) {
                Some(e) => {
                    let ghost before = info_views(res@);
                    res.push(make_info(hashes[i].as_str(), e, repo_ids));
                    assert(info_views(res@) =~= before.push(entry_info(hashes@[i as int]@, *e, strs(repo_ids@))));
                },
                None => {},
            }
            i += 1;
        }
        assert(hv.take(hashes@.len() as int) =~= hv);
        res
    }

    /// The answer to `GET /file-info/<path>` for a Rust file: its
    /// information, or the 404 reply where it is not indexed.
    pub fn rust_file_info(&self, path: &str, repo_ids: &[String]) -> (res: Result<FileInfoResponse, Reply>)
        ensures
            match spec_rust_file_info(*self, path@, strs(repo_ids@)) {
                Some(v) => res matches Ok(f) && file_info_view(f) == v,
                None => res matches Err(r) && reply_view(r) == (
                    404u16,
                    Seq::<(Seq<char>, Seq<char>)>::empty(),
                    "Rust file "@ + spec_strip_repo_prefix(path@, strs(repo_ids@)) + " not in cache"@,
                ),
            },
    {
        proof {
            lemma_prefixed_indexed(self.files.spec_map(), path@, strs(repo_ids@), 0);
        }
        match self.find_indexed_file(path, repo_ids) {
            Some(actual) => {
                match self.files.get(actual.as_str()) {
                    Some(e) => {
                        let infos = self.known_body_infos(&e.body_hashes, repo_ids);
                        Ok(FileInfoResponse {
                            filepath: strip_repo_prefix(actual.as_str(), repo_ids),
                            loc: e.loc,
                            byte_size: e.byte_size,
                            body_hashes: infos,
                            source: string_of(&chars_of("cache")),
                        })
                    },
                    None => Err(Reply { status: 0, headers: Vec::new(), body: String::new() }),
                }
            },
            None => {
                let dp = strip_repo_prefix(path, repo_ids);
                let mut body = chars_of("Rust file ");
                append_str(&mut body, dp.as_str());
                append_str(&mut body, " not in cache");
                let r = reply(404, Vec::new(), &body);
                assert(reply_view(r).1 =~= Seq::<(Seq<char>, Seq<char>)>::empty());
                Err(r)
            },
        }
    }
}

/// The answer to `GET /file-info/<path>` for a file read from the mirror.
pub fn disk_file_info(path: &str, repo_ids: &[String], content: &str) -> (res: FileInfoResponse)
    ensures
        file_info_view(res) == (
            spec_strip_repo_prefix(path@, strs(repo_ids@)),
            lines(content@).len(),
            utf8(content@).len(),
            Seq::<(Seq<char>, Seq<char>, nat, nat)>::empty(),
            "disk"@,
        ),
{
    let res = FileInfoResponse {
        filepath: strip_repo_prefix(path, repo_ids),
        loc: crate::text::count_lines(&chars_of(content)),
        byte_size: content.as_bytes().len(),
        body_hashes: Vec::new(),
        source: string_of(&chars_of("disk")),
    };
    assert(info_views(res.body_hashes@) =~= Seq::<(Seq<char>, Seq<char>, nat, nat)>::empty());
    res
}

// ───────────────────────── GET /catalog ─────────────────────────

/// Where `x` goes in a list sorted by descending key: before the first
/// element with a smaller key, so that equal keys keep their order.
pub open spec fn ins_pos<T>(s: Seq<T>, x: T, key: spec_fn(T) -> nat) -> int
    decreases s.len(),
{
    if s.len() == 0 {
        0
    } else if key(s[0]) < key(x) {
        0
    } else {
        1 + ins_pos(s.drop_first(), x, key)
    }
}

/// The stable sort by descending key (`sort_by(|a, b| key(b).cmp(&key(a)))`).
pub open spec fn sort_desc<T>(s: Seq<T>, key: spec_fn(T) -> nat) -> Seq<T>
    decreases s.len(),
{
    if s.len() == 0 {
        seq![]
    } else {
        let t = sort_desc(s.drop_last(), key);
        t.insert(ins_pos(t, s.last(), key), s.last())
    }
}

proof fn lemma_ins_pos<T>(s: Seq<T>, x: T, key: spec_fn(T) -> nat, j: int)
    requires
        0 <= j <= s.len(),
        forall|k: int| 0 <= k < j ==> !(key(#[trigger] s[k]) < key(x)),
        j == s.len() || key(s[j]) < key(x),
    ensures
        ins_pos(s, x, key) == j,
    decreases s.len(),
{
    if s.len() > 0 && j > 0 {
        assert(!(key(s[0]) < key(x)));
        assert forall|k: int| 0 <= k < j - 1 implies !(key(#[trigger] s.drop_first()[k]) < key(x)) by {
            assert(s.drop_first()[k] == s[k + 1]);
        }
        lemma_ins_pos(s.drop_first(), x, key, j - 1);
    }
}

proof fn lemma_sort_len<T>(s: Seq<T>, key: spec_fn(T) -> nat)
    ensures
        sort_desc(s, key).len() == s.len(),
    decreases s.len(),
{
    if s.len() > 0 {
        lemma_sort_len(s.drop_last(), key);
        lemma_ins_pos_bounds(sort_desc(s.drop_last(), key), s.last(), key);
    }
}

proof fn lemma_ins_pos_bounds<T>(s: Seq<T>, x: T, key: spec_fn(T) -> nat)
    ensures
        0 <= ins_pos(s, x, key) <= s.len(),
    decreases s.len(),
{
    if s.len() > 0 {
        lemma_ins_pos_bounds(s.drop_first(), x, key);
    }
}

/// The key bodies are ordered by: their line count.
pub open spec fn info_loc(i: (Seq<char>, Seq<char>, nat, nat)) -> nat {
    i.2
}

/// One file of the catalog as plain values.
pub type SummaryView = (Seq<char>, nat, nat, Seq<(Seq<char>, Seq<char>, nat, nat)>, Seq<char>, Seq<char>);

/// The key files are ordered by: their line count.
pub open spec fn summary_loc(s: SummaryView) -> nat {
    s.1
}

/// One line of the catalog: display path, size, body count, the five
/// largest bodies, type and source.
#[derive(Debug)]
pub struct CatalogFileSummary {
    pub filepath: String,
    pub loc: usize,
    pub num_bodies: usize,
    pub top_hashes: Vec<BodyInfoResponse>,
    pub file_type: String,
    pub source: String,
}

/// All indexed files with their sizes and totals.
#[derive(Debug)]
pub struct CatalogResponse {
    pub files: Vec<CatalogFileSummary>,
    pub total_loc: usize,
    pub total_bodies: usize,
}

pub open spec fn summary_view(s: CatalogFileSummary) -> SummaryView {
    (s.filepath@, s.loc as nat, s.num_bodies as nat, info_views(s.top_hashes@), s.file_type@, s.source@)
}

pub open spec fn summary_views(ss: Seq<CatalogFileSummary>) -> Seq<SummaryView> {
    ss.map_values(|s: CatalogFileSummary| summary_view(s))
}

/// The catalog line of one indexed file.
pub open spec fn file_summary(c: DaemonCache, path: Seq<char>, e: FileEntry, ids: Seq<Seq<char>>) -> SummaryView {
    let infos = sort_desc(known_infos(c, strs(e.body_hashes@), ids), |i: (Seq<char>, Seq<char>, nat, nat)| info_loc(i));
    (
        spec_strip_repo_prefix(path, ids),
        e.loc as nat,
        e.body_hashes@.len(),
        if infos.len() <= 5 { infos } else { infos.take(5) },
        "rust"@,
        "cache"@,
    )
}

/// The catalog lines of the first `n` indexed files, in index order.
pub open spec fn summaries_upto(c: DaemonCache, ids: Seq<Seq<char>>, n: int) -> Seq<SummaryView>
    decreases n,
{
    if n <= 0 {
        seq![]
    } else {
        let e = c.files.entry_seq()[n - 1];
        summaries_upto(c, ids, n - 1).push(file_summary(c, e.0@, e.1, ids))
    }
}

/// The total line count and body count of the first `n` indexed files.
pub open spec fn totals_upto(es: Seq<(String, FileEntry)>, n: int) -> (nat, nat)
    decreases n,
{
    if n <= 0 {
        (0, 0)
    } else {
        let t = totals_upto(es, n - 1);
        (t.0 + es[n - 1].1.loc as nat, t.1 + es[n - 1].1.body_hashes@.len())
    }
}

/// The catalog: lines sorted by descending size, and the totals; `None`
/// where a total does not fit in a `usize` (the sum overflows).
pub open spec fn spec_catalog(c: DaemonCache, ids: Seq<Seq<char>>) -> Option<(Seq<SummaryView>, nat, nat)> {
    let n = c.files.entry_seq().len() as int;
    let t = totals_upto(c.files.entry_seq(), n);
    if t.0 <= usize::MAX && t.1 <= usize::MAX {
        Some((sort_desc(summaries_upto(c, ids, n), |s: SummaryView| summary_loc(s)), t.0, t.1))
    } else {
        None
    }
}

/// Stable sort of body information by descending line count.
fn sort_infos(v: Vec<BodyInfoResponse>) -> (res: Vec<BodyInfoResponse>)
    ensures
        info_views(res@) == sort_desc(info_views(v@), |i: (Seq<char>, Seq<char>, nat, nat)| info_loc(i)),
{
    let ghost key = |i: (Seq<char>, Seq<char>, nat, nat)| info_loc(i);
    let ghost src = info_views(v@);
    let mut rest = v;
    let mut out: Vec<BodyInfoResponse> = Vec::new();
    let ghost mut done: Seq<(Seq<char>, Seq<char>, nat, nat)> = seq![];
    assert(done + info_views(rest@) =~= src);
    while rest.len() > 0
        invariant
            done + info_views(rest@) == src,
            info_views(out@) == sort_desc(done, key),
            key == (|i: (Seq<char>, Seq<char>, nat, nat)| info_loc(i)),
        decreases rest.len(),
    {
        let x = rest.remove(0);
        let ghost xv = info_view(x);
        proof {
            lemma_sort_len(done, key);
        }
        let mut j: usize = 0;
        while j < out.len() && !(out[j].loc < x.loc)
            invariant
                j <= out@.len(),
                forall|k: int| 0 <= k < j ==> !(key(#[trigger] info_views(out@)[k]) < key(xv)),
                xv == info_view(x),
                key == (|i: (Seq<char>, Seq<char>, nat, nat)| info_loc(i)),
            decreases out.len() - j,
        {
            j += 1;
        }
        proof {
            lemma_ins_pos(info_views(out@), xv, key, j as int);
        }
        let ghost before = info_views(out@);
        out.insert(j, x);
        proof {
            assert(info_views(out@) =~= before.insert(j as int, xv));
            let prev = done;
            done = done.push(xv);
            assert(done.drop_last() =~= prev);
            assert(done + info_views(rest@) =~= src);
        }
    }
    assert(done =~= src);
    out
}

/// Stable sort of catalog lines by descending line count.
fn sort_summaries(v: Vec<CatalogFileSummary>) -> (res: Vec<CatalogFileSummary>)
    ensures
        summary_views(res@) == sort_desc(summary_views(v@), |s: SummaryView| summary_loc(s)),
{
    let ghost key = |s: SummaryView| summary_loc(s);
    let ghost src = summary_views(v@);
    let mut rest = v;
    let mut out: Vec<CatalogFileSummary> = Vec::new();
    let ghost mut done: Seq<SummaryView> = seq![];
    assert(done + summary_views(rest@) =~= src);
    while rest.len() > 0
        invariant
            done + summary_views(rest@) == src,
            summary_views(out@) == sort_desc(done, key),
            key == (|s: SummaryView| summary_loc(s)),
        decreases rest.len(),
    {
        let x = rest.remove(0);
        let ghost xv = summary_view(x);
        proof {
            lemma_sort_len(done, key);
        }
        let mut j: usize = 0;
        while j < out.len() && !(out[j].loc < x.loc)
            invariant
                j <= out@.len(),
                forall|k: int| 0 <= k < j ==> !(key(#[trigger] summary_views(out@)[k]) < key(xv)),
                xv == summary_view(x),
                key == (|s: SummaryView| summary_loc(s)),
            decreases out.len() - j,
        {
            j += 1;
        }
        proof {
            lemma_ins_pos(summary_views(out@), xv, key, j as int);
        }
        let ghost before = summary_views(out@);
        out.insert(j, x);
        proof {
            assert(summary_views(out@) =~= before.insert(j as int, xv));
            let prev = done;
            done = done.push(xv);
            assert(done.drop_last() =~= prev);
            assert(done + summary_views(rest@) =~= src);
        }
    }
    assert(done =~= src);
    out
}

impl DaemonCache {
    /// The catalog: every indexed file with its size, body count and five
    /// largest bodies, sorted by descending size, with the totals. `None`
    /// where a total overflows.
    pub fn catalog(&self, repo_ids: &[String]) -> (res: Option<CatalogResponse>)
        ensures
            match spec_catalog(*self, strs(repo_ids@)) {
                Some(v) => res matches Some(r) && summary_views(r.files@) == v.0 && r.total_loc == v.1
                    && r.total_bodies == v.2,
                None => res is None,
            },
    {
        let ghost ids = strs(repo_ids@);
        let n = self.files.len();
        let ghost es = self.files.entry_seq();
        let mut files: Vec<CatalogFileSummary> = Vec::new();
        let mut total_loc: u128 = 0;
        let mut total_bodies: u128 = 0;
        let mut i: usize = 0;
        assert(summary_views(files@) =~= Seq::<SummaryView>::empty());
        while i < n
            invariant
                i <= n,
                n == es.len(),
                es == self.files.entry_seq(),
                ids == strs(repo_ids@),
                summary_views(files@) == summaries_upto(*self, ids, i as int),
                totals_upto(es, i as int) == (total_loc as nat, total_bodies as nat),
                total_loc <= i * (usize::MAX as int),
                total_bodies <= i * (usize::MAX as int),
            decreases n - i,
        {
            let (path, e) = self.files.entry(i);
            let infos = sort_infos(self.known_body_infos(&e.body_hashes, repo_ids));
            let mut top = infos;
            top.truncate(5);
            let s = CatalogFileSummary {
                filepath: strip_repo_prefix(path.as_str(), repo_ids),
                loc: e.loc,
                num_bodies: e.body_hashes.len(),
                top_hashes: top,
                file_type: string_of(&chars_of("rust")),
                source: string_of(&chars_of("cache")),
            };
            proof {
                let all = sort_desc(known_infos(*self, strs(e.body_hashes@), ids), |i: (Seq<char>, Seq<char>, nat, nat)| info_loc(i));
                if all.len() > 5 {
                    assert(info_views(s.top_hashes@) =~= all.take(5));
                }
                assert(summary_view(s) == file_summary(*self, path@, *e, ids));
            }
            let ghost before = summary_views(files@);
            files.push(s);
            assert(summary_views(files@) =~= before.push(summary_view(s)));
            assert(total_loc + e.loc <= (i + 1) * (usize::MAX as int)) by (nonlinear_arith)
                requires
                    total_loc <= i * (usize::MAX as int),
                    e.loc <= usize::MAX,
            ;
            assert(total_bodies + e.body_hashes@.len() <= (i + 1) * (usize::MAX as int)) by (nonlinear_arith)
                requires
                    total_bodies <= i * (usize::MAX as int),
                    e.body_hashes@.len() <= usize::MAX,
            ;
            proof {
                assert((i + 1) * (usize::MAX as int) <= usize::MAX * (usize::MAX as int)) by (nonlinear_arith)
                    requires
                        i + 1 <= usize::MAX,
                ;
                assert(usize::MAX * (usize::MAX as int) < u128::MAX) by (nonlinear_arith)
                    requires
                        usize::MAX <= u64::MAX,
                ;
            }
            total_loc = total_loc + e.loc as u128;
            total_bodies = total_bodies + e.body_hashes.len() as u128;
            i += 1;
        }
        if total_loc > usize::MAX as u128 || total_bodies > usize::MAX as u128 {
            return None;
        }
        let sorted = sort_summaries(files);
        Some(CatalogResponse { files: sorted, total_loc: total_loc as usize, total_bodies: total_bodies as usize })
    }
}

// ───────────────────────── GET /skeleton ─────────────────────────

/// The query of `GET /skeleton`.
#[derive(Debug)]
pub struct SkeletonQuery {
    pub repo: Option<String>,
}

/// The repo a skeleton query asks for: the named one, or `"all"`.
pub open spec fn repo_param(q: Option<Seq<char>>) -> Seq<char> {
    match q {
        Some(r) => r,
        None => "all"@,
    }
}

/// The answer to `GET /skeleton`: the skeleton response with its line count
/// and repo in the headers.
pub open spec fn spec_skeleton_reply(c: DaemonCache, repo: Option<Seq<char>>, ids: Seq<Seq<char>>) -> (u16, Seq<(Seq<char>, Seq<char>)>, Seq<char>) {
    let body = c.spec_full_skeleton(repo_param(repo), ids);
    (200, seq![("x-loc"@, decimal(lines(body).len())), ("x-repo"@, repo_param(repo))], body)
}

impl DaemonCache {
    /// The answer to `GET /skeleton`.
    pub fn skeleton_reply(&self, daemon_port: u16, query: &SkeletonQuery, repo_ids: &[String]) -> (res: Reply)
        ensures
            reply_view(res) == spec_skeleton_reply(
                *self,
                match query.repo {
                    Some(r) => Some(r@),
                    None => None,
                },
                strs(repo_ids@),
            ),
    {
        let param = match &query.repo {
            Some(r) => string_of(&chars_of(r.as_str())),
            None => string_of(&chars_of("all")),
        };
        let skeleton = self.assemble_full_skeleton_response(daemon_port, param.as_str(), repo_ids);
        let loc = crate::text::count_lines(&chars_of(skeleton.as_str()));
        let mut headers: Vec<(String, String)> = Vec::new();
        headers.push(header("x-loc", &decimal_vec(loc as u128)));
        headers.push(header("x-repo", &chars_of(param.as_str())));
        let r = reply(200, headers, &chars_of(skeleton.as_str()));
        assert(reply_view(r).1 =~= seq![("x-loc"@, decimal(loc as nat)), ("x-repo"@, param@)]);
        r
    }
}

// ───────────────────────── request log ─────────────────────────

/// One served request, as the dashboard lists it.
#[derive(Clone, Debug)]
pub struct RequestLog {
    pub method: String,
    pub path: String,
    pub status: u16,
    pub timestamp: String,
    pub duration_ms: u64,
    pub user_agent: String,
}

/// How many requests the log keeps.
pub const LOG_CAPACITY: usize = 200;

/// The log after appending an entry: the newest `LOG_CAPACITY` entries.
pub open spec fn appended_log(logs: Seq<RequestLog>, entry: RequestLog) -> Seq<RequestLog> {
    let all = logs.push(entry);
    if all.len() > LOG_CAPACITY {
        all.skip(all.len() - LOG_CAPACITY)
    } else {
        all
    }
}

/// Append a request to the log, dropping the oldest beyond the capacity.
pub fn push_log(logs: &mut Vec<RequestLog>, entry: RequestLog)
    ensures
        final(logs)@ == appended_log(old(logs)@, entry),
{
    logs.push(entry);
    if logs.len() > LOG_CAPACITY {
        let drain_count = logs.len() - LOG_CAPACITY;
        let ghost all = logs@;
        let mut kept: Vec<RequestLog> = Vec::new();
        let mut rest: Vec<RequestLog> = Vec::new();
        std::mem::swap(&mut rest, logs);
        let mut i: usize = 0;
        while rest.len() > 0
            invariant
                LOG_CAPACITY < all.len() <= usize::MAX,
                drain_count == all.len() - LOG_CAPACITY,
                i + rest@.len() == all.len(),
                rest@ == all.skip(i as int),
                i <= drain_count ==> kept@.len() == 0,
                i > drain_count ==> kept@ == all.subrange(drain_count as int, i as int),
            decreases rest.len(),
        {
            let e = rest.remove(0);
            if i >= drain_count {
                let ghost before = kept@;
                kept.push(e);
                proof {
                    if i == drain_count {
                        assert(kept@ =~= all.subrange(drain_count as int, i + 1));
                    } else {
                        assert(kept@ =~= all.subrange(drain_count as int, i + 1));
                    }
                }
            }
            proof {
                assert(rest@ =~= all.skip(i + 1));
            }
            i += 1;
        }
        assert(kept@ =~= all.skip(drain_count as int));
        *logs = kept;
    }
}

/// Requests for the log views themselves are not logged.
pub fn is_log_view(path: &str) -> (res: bool)
    ensures
        res == (path@ == "/logs"@ || path@ == "/dashboard"@ || path@ == "/"@),
{
    crate::strip_generic::str_equals(path, "/logs") || crate::strip_generic::str_equals(path, "/dashboard")
        || crate::strip_generic::str_equals(path, "/")
}

// ───────────────────────── repos ─────────────────────────

/// A registered repo as `GET /repos` lists it.
#[derive(Clone, Debug)]
pub struct RepoSummary {
    pub id: String,
    pub source_path: String,
    pub active: bool,
    pub last_sync: Option<u64>,
    pub git_branch: Option<String>,
    pub file_count: Option<usize>,
}

/// The body of `POST /repos`.
#[derive(Clone, Debug)]
pub struct AddRepoRequest {
    pub id: String,
    pub source_path: String,
}

/// A summary shows what its entry holds.
pub open spec fn summarizes(s: RepoSummary, e: crate::registry::RepoEntry) -> bool {
    &&& s.id@ == e.id@
    &&& s.source_path@ == e.source_path@
    &&& s.active == e.active
    &&& s.last_sync == e.last_sync
    &&& match (s.git_branch, e.git_branch) {
        (Some(a), Some(b)) => a@ == b@,
        (None, None) => true,
        _ => false,
    }
    &&& s.file_count == e.file_count
}

fn copy_opt_string(o: &Option<String>) -> (res: Option<String>)
    ensures
        match (res, *o) {
            (Some(a), Some(b)) => a@ == b@,
            (None, None) => true,
            _ => false,
        },
{
    match o {
        Some(s) => Some(s.clone()),
        None => None,
    }
}

/// The registered repos, in the registry's order.
pub fn repo_summaries(reg: &crate::registry::RepoRegistry) -> (res: Vec<RepoSummary>)
    ensures
        res@.len() == reg.repos.entry_seq().len(),
        forall|i: int| 0 <= i < res@.len() ==> summarizes(#[trigger] res@[i], reg.repos.entry_seq()[i].1),
{
    let n = reg.repos.len();
    let mut res: Vec<RepoSummary> = Vec::new();
    let mut i: usize = 0;
    while i < n
        invariant
            i <= n,
            n == reg.repos.entry_seq().len(),
            res@.len() == i,
            forall|j: int| 0 <= j < i ==> summarizes(#[trigger] res@[j], reg.repos.entry_seq()[j].1),
        decreases n - i,
    {
        let (_, e) = reg.repos.entry(i);
        res.push(RepoSummary {
            id: e.id.clone(),
            source_path: e.source_path.clone(),
            active: e.active,
            last_sync: e.last_sync,
            git_branch: copy_opt_string(&e.git_branch),
            file_count: e.file_count,
        });
        i += 1;
    }
    res
}

proof fn lemma_ins_pos_props<T>(s: Seq<T>, x: T, key: spec_fn(T) -> nat)
    ensures
        0 <= ins_pos(s, x, key) <= s.len(),
        forall|k: int| 0 <= k < ins_pos(s, x, key) ==> key(#[trigger] s[k]) >= key(x),
        ins_pos(s, x, key) < s.len() ==> key(s[ins_pos(s, x, key)]) < key(x),
    decreases s.len(),
{
    if s.len() > 0 && !(key(s[0]) < key(x)) {
        let d = s.drop_first();
        lemma_ins_pos_props(d, x, key);
        assert forall|k: int| 0 <= k < ins_pos(s, x, key) implies key(#[trigger] s[k]) >= key(x) by {
            if k > 0 {
                assert(s[k] == d[k - 1]);
            }
        }
        if ins_pos(s, x, key) < s.len() {
            assert(s[ins_pos(s, x, key)] == d[ins_pos(d, x, key)]);
        }
    }
}

/// The catalog order: the sort keeps exactly the given elements and puts
/// them in descending order of their key.
pub proof fn lemma_sort_desc<T>(s: Seq<T>, key: spec_fn(T) -> nat)
    ensures
        sort_desc(s, key).to_multiset() == s.to_multiset(),
        forall|i: int, j: int| 0 <= i < j < sort_desc(s, key).len() ==> key(#[trigger] sort_desc(s, key)[i]) >= key(
            #[trigger] sort_desc(s, key)[j],
        ),
    decreases s.len(),
{
    if s.len() == 0 {
        assert(s =~= Seq::<T>::empty());
        assert(sort_desc(s, key) =~= s);
    } else {
        let d = s.drop_last();
        let x = s.last();
        lemma_sort_desc(d, key);
        lemma_sort_len(d, key);
        let t = sort_desc(d, key);
        lemma_ins_pos_props(t, x, key);
        let p = ins_pos(t, x, key);
        let u = t.insert(p, x);
        assert(s =~= d.push(x));
        vstd::seq_lib::to_multiset_insert(t, p, x);
        vstd::seq_lib::to_multiset_build(d, x);
        assert(sort_desc(s, key) == u);
        assert forall|i: int, j: int| 0 <= i < j < u.len() implies key(#[trigger] u[i]) >= key(#[trigger] u[j]) by {
            if j < p {
                assert(u[i] == t[i] && u[j] == t[j]);
            } else if j == p {
                assert(u[j] == x);
                assert(u[i] == t[i]);
            } else if i < p {
                assert(u[i] == t[i] && u[j] == t[j - 1]);
            } else if i == p {
                assert(u[i] == x && u[j] == t[j - 1]);
                assert(key(t[p]) >= key(t[j - 1]));
            } else {
                assert(u[i] == t[i - 1] && u[j] == t[j - 1]);
            }
        }
    }
}

/// The log never holds more than its capacity, and its last entry is the
/// one just appended.
pub proof fn lemma_log_bounded(logs: Seq<RequestLog>, entry: RequestLog)
    ensures
        appended_log(logs, entry).len() <= LOG_CAPACITY,
        appended_log(logs, entry).last() == entry,
        logs.len() < LOG_CAPACITY ==> appended_log(logs, entry) == logs.push(entry),
{
}

} // verus!
