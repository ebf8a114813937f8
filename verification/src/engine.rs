//! The parsing engine: typed value coercion and the two token-matching
//! strategies over a front-draining token buffer.

use vstd::prelude::*;
use crate::dict::{assoc_set, lemma_deep_entries_set, Dict};
use crate::numeric::{is_num_token, num_token, parse_i64, spec_parse_i64};
use crate::schema::{CliParameters, Param, SubParam, SubParamType};
use crate::text::{i64_dec, join_all, spec_dec_i64, spec_join, split_whitespace_tokens, whitespace_tokens};

verus! {

/// One typed value produced by matching.
#[derive(Debug, PartialEq)]
pub enum ParamValue {
    /// Every token that remained in the buffer when the slot was matched.
    Array(Vec<String>),
    /// A signed 64-bit integer.
    Int(i64),
    /// A token taken verbatim.
    Str(String),
    /// A numeric token, kept as its source text.
    Num(String),
}

/// The mathematical shape of a typed value.
pub enum ValueModel {
    Arr(Seq<Seq<char>>),
    Int(i64),
    Str(Seq<char>),
    Num(Seq<char>),
}

impl DeepView for ParamValue {
    type V = ValueModel;

    open spec fn deep_view(&self) -> ValueModel {
        match self {
            ParamValue::Array(ts) => ValueModel::Arr(ts.deep_view()),
            ParamValue::Int(v) => ValueModel::Int(*v),
            ParamValue::Str(s) => ValueModel::Str(s@),
            ParamValue::Num(s) => ValueModel::Num(s@),
        }
    }
}

impl ParamValue {
    /// The value written as text: array elements joined by a comma and a
    /// space, integers in decimal, text and numeric tokens verbatim.
    pub open spec fn spec_text(self) -> Seq<char> {
        match self {
            ParamValue::Array(ts) => spec_join(ts.deep_view(), ", "@),
            ParamValue::Int(v) => spec_dec_i64(v as int),
            ParamValue::Str(s) => s@,
            ParamValue::Num(s) => s@,
        }
    }

    /// Writes the value as text.
    pub fn to_text(&self) -> (r: String)
        ensures
            r@ == self.spec_text(),
    {
        match self {
            ParamValue::Array(ts) => join_all(ts, ", "),
            ParamValue::Int(v) => i64_dec(*v),
            ParamValue::Str(s) => s.clone(),
            ParamValue::Num(s) => s.clone(),
        }
    }
}

/// What one slot yields from the front of the token buffer `toks`: possibly
/// a key/value pair, and the tokens left over.  An array slot copies the
/// whole buffer without consuming it; the other slots consume one token,
/// and a token that does not read as the required number yields no pair.
pub open spec fn spec_sub_match(sp: SubParam, toks: Seq<Seq<char>>) -> (Option<
    (Seq<char>, ValueModel),
>, Seq<Seq<char>>) {
    match sp.ptype {
        SubParamType::Array => (Some((sp.spec_key(), ValueModel::Arr(toks))), toks),
        SubParamType::Int => {
            match spec_parse_i64(toks[0]) {
                Some(v) => (Some((sp.spec_key(), ValueModel::Int(v))), toks.drop_first()),
                None => (None, toks.drop_first()),
            }
        },
        SubParamType::Num => {
            if num_token(toks[0]) {
                (Some((sp.spec_key(), ValueModel::Num(toks[0]))), toks.drop_first())
            } else {
                (None, toks.drop_first())
            }
        },
        SubParamType::Str => (Some((sp.spec_key(), ValueModel::Str(toks[0]))), toks.drop_first()),
    }
}

impl SubParam {
    /// Tries to produce this slot's key/value pair from the buffer front.
    pub fn match_with(&self, args: &mut Vec<String>) -> (r: Option<(String, ParamValue)>)
        requires
            old(args).len() > 0,
        ensures
            ({
                let (ro, rest) = spec_sub_match(*self, old(args).deep_view());
                &&& final(args).deep_view() == rest
                &&& match r {
                    Some(kv) => ro == Some((kv.0@, kv.1.deep_view())),
                    None => ro is None,
                }
            }),
    {
        let ghost dv = args.deep_view();
        match self.ptype {
            SubParamType::Array => {
                let copy = args.clone();
                proof {
                    assert(copy@ =~= args@);
                    assert(copy.deep_view() =~= dv);
                }
                Some((self.get_name(), ParamValue::Array(copy)))
            },
            SubParamType::Int => {
                let tok = args.remove(0);
                proof {
                    assert(tok@ == dv[0]);
                    assert(args.deep_view() =~= dv.drop_first());
                }
                match parse_i64(tok.as_str()) {
                    Some(v) => Some((self.get_name(), ParamValue::Int(v))),
                    None => None,
                }
            },
            SubParamType::Num => {
                let tok = args.remove(0);
                proof {
                    assert(tok@ == dv[0]);
                    assert(args.deep_view() =~= dv.drop_first());
                }
                if is_num_token(tok.as_str()) {
                    Some((self.get_name(), ParamValue::Num(tok)))
                } else {
                    None
                }
            },
            SubParamType::Str => {
                let tok = args.remove(0);
                proof {
                    assert(tok@ == dv[0]);
                    assert(args.deep_view() =~= dv.drop_first());
                }
                Some((self.get_name(), ParamValue::Str(tok)))
            },
        }
    }
}

/// What matching the slots `subs`, in order, against the buffer `toks`
/// yields on top of `acc`: each slot takes its turn until the buffer is
/// exhausted, and a slot that yields a pair binds its key, replacing an
/// earlier binding of the same key.
pub open spec fn spec_param_match(
    subs: Seq<SubParam>,
    toks: Seq<Seq<char>>,
    acc: Seq<(Seq<char>, ValueModel)>,
) -> (Seq<(Seq<char>, ValueModel)>, Seq<Seq<char>>)
    decreases subs.len(),
{
    if subs.len() == 0 || toks.len() == 0 {
        (acc, toks)
    } else {
        let step = spec_sub_match(subs[0], toks);
        let acc2 = match step.0 {
            Some(kv) => assoc_set(acc, kv.0, kv.1),
            None => acc,
        };
        spec_param_match(subs.drop_first(), step.1, acc2)
    }
}

/// An integer or numeric slot fed a token that does not read as its number
/// consumes the token but yields no pair: the slot's key is omitted from the
/// result, and matching goes on with the remaining slots instead of failing.
pub proof fn lemma_numeric_failure_skips(
    subs: Seq<SubParam>,
    toks: Seq<Seq<char>>,
    acc: Seq<(Seq<char>, ValueModel)>,
)
    requires
        subs.len() > 0,
        toks.len() > 0,
        (subs[0].ptype == SubParamType::Int && spec_parse_i64(toks[0]) is None) || (subs[0].ptype
            == SubParamType::Num && !num_token(toks[0])),
    ensures
        spec_sub_match(subs[0], toks) == (
            None::<(Seq<char>, ValueModel)>,
            toks.drop_first(),
        ),
        spec_param_match(subs, toks, acc) == spec_param_match(
            subs.drop_first(),
            toks.drop_first(),
            acc,
        ),
{
}

/// The buffer only ever shrinks under a parameter match.
pub proof fn lemma_param_match_len(
    subs: Seq<SubParam>,
    toks: Seq<Seq<char>>,
    acc: Seq<(Seq<char>, ValueModel)>,
)
    ensures
        spec_param_match(subs, toks, acc).1.len() <= toks.len(),
    decreases subs.len(),
{
    if subs.len() == 0 || toks.len() == 0 {
    } else {
        let step = spec_sub_match(subs[0], toks);
        let acc2 = match step.0 {
            Some(kv) => assoc_set(acc, kv.0, kv.1),
            None => acc,
        };
        lemma_param_match_len(subs.drop_first(), step.1, acc2);
    }
}

impl Param {
    /// Applies this command's slots in ordinal order to the buffer,
    /// stopping early when the buffer is exhausted.  A failed numeric read
    /// omits its key; the match itself never fails.
    pub fn match_with(&self, args: &mut Vec<String>) -> (ret: Dict<ParamValue>)
        ensures
            ret.wf(),
            (ret.deep_view(), final(args).deep_view()) == spec_param_match(
                self.params@,
                old(args).deep_view(),
                Seq::empty(),
            ),
    {
        let mut ret: Dict<ParamValue> = Dict::new();
        proof {
            ret.lemma_deep_view();
            assert(ret.deep_view() =~= Seq::<(Seq<char>, ValueModel)>::empty());
            assert(self.params@.skip(0) =~= self.params@);
        }
        let mut i: usize = 0;
        while i < self.params.len()
            invariant
                0 <= i <= self.params@.len(),
                ret.wf(),
                spec_param_match(self.params@, old(args).deep_view(), Seq::empty())
                    == spec_param_match(
                    self.params@.skip(i as int),
                    args.deep_view(),
                    ret.deep_view(),
                ),
            decreases self.params@.len() - i,
        {
            proof {
                assert(self.params@.skip(i as int)[0] == self.params@[i as int]);
                assert(self.params@.skip(i as int).drop_first() =~= self.params@.skip(i as int + 1));
            }
            if args.len() > 0 {
                let res = self.params[i].match_with(args);
                if let Some((key, val)) = res {
                    proof {
                        ret.lemma_deep_view();
                        lemma_deep_entries_set(ret@, key@, val);
                    }
                    let ghost prev = ret.deep_view();
                    ret.insert(key, val);
                    proof {
                        ret.lemma_deep_view();
                    }
                }
            }
            i += 1;
        }
        proof {
            assert(self.params@.skip(self.params@.len() as int) =~= Seq::<SubParam>::empty());
        }
        ret
    }
}

/// One parse result: each matched command's name bound to its typed values,
/// in match order.
pub type InvocationModel = Seq<(Seq<char>, Seq<(Seq<char>, ValueModel)>)>;

/// The first command of `ps` that the token `tok` names, if any.
pub open spec fn spec_find_param(ps: Seq<Param>, tok: Seq<char>) -> Option<int>
    decreases ps.len(),
{
    if ps.len() == 0 {
        None
    } else if ps[0].spec_matches(tok) {
        Some(0)
    } else {
        match spec_find_param(ps.drop_first(), tok) {
            Some(j) => Some(j + 1),
            None => None,
        }
    }
}

/// The position found by `spec_find_param` is the first match, and a miss
/// means no command matches.
pub proof fn lemma_find_param(ps: Seq<Param>, tok: Seq<char>)
    ensures
        match spec_find_param(ps, tok) {
            Some(j) => 0 <= j < ps.len() && ps[j].spec_matches(tok) && (forall|l: int|
                0 <= l < j ==> !ps[l].spec_matches(tok)),
            None => forall|l: int| 0 <= l < ps.len() ==> !ps[l].spec_matches(tok),
        },
    decreases ps.len(),
{
    if ps.len() == 0 {
    } else if ps[0].spec_matches(tok) {
    } else {
        lemma_find_param(ps.drop_first(), tok);
        match spec_find_param(ps.drop_first(), tok) {
            Some(j) => {
                assert(ps[j + 1] == ps.drop_first()[j]);
                assert(forall|l: int| 1 <= l < j + 1 ==> ps[l] == ps.drop_first()[l - 1]);
            },
            None => {
                assert(forall|l: int| 1 <= l < ps.len() ==> ps[l] == ps.drop_first()[l - 1]);
            },
        }
    }
}

/// The earliest token of `toks` naming some command of `ps`, with that
/// command's position, if any.
pub open spec fn spec_find_cmd(ps: Seq<Param>, toks: Seq<Seq<char>>) -> Option<(int, int)>
    decreases toks.len(),
{
    if toks.len() == 0 {
        None
    } else {
        match spec_find_param(ps, toks[0]) {
            Some(j) => Some((0int, j)),
            None => match spec_find_cmd(ps, toks.drop_first()) {
                Some(ij) => Some((ij.0 + 1, ij.1)),
                None => None,
            },
        }
    }
}

/// The pair found by `spec_find_cmd` names the earliest matching token, and
/// a miss means no token matches.
pub proof fn lemma_find_cmd(ps: Seq<Param>, toks: Seq<Seq<char>>)
    ensures
        match spec_find_cmd(ps, toks) {
            Some(ij) => 0 <= ij.0 < toks.len() && spec_find_param(ps, toks[ij.0]) == Some(ij.1) && (
            forall|l: int| 0 <= l < ij.0 ==> spec_find_param(ps, toks[l]) is None),
            None => forall|l: int| 0 <= l < toks.len() ==> spec_find_param(ps, toks[l]) is None,
        },
    decreases toks.len(),
{
    if toks.len() == 0 {
    } else {
        match spec_find_param(ps, toks[0]) {
            Some(j) => {},
            None => {
                lemma_find_cmd(ps, toks.drop_first());
                assert(forall|l: int| 1 <= l < toks.len() ==> toks[l] == toks.drop_first()[l - 1]);
            },
        }
    }
}

/// What the sequential strategy yields on top of `acc`: find the earliest
/// token naming a command, discard everything up to and including it, feed
/// the rest to that command's slots, bind the command's name to the result
/// (a later match overwrites an earlier binding), and repeat until no token
/// matches.
pub open spec fn spec_sequential(
    ps: Seq<Param>,
    toks: Seq<Seq<char>>,
    acc: InvocationModel,
) -> InvocationModel
    decreases toks.len(),
    via spec_sequential_decreases
{
    if toks.len() == 0 {
        acc
    } else {
        match spec_find_cmd(ps, toks) {
            None => acc,
            Some(ij) => {
                let after = toks.skip(ij.0 + 1);
                let pm = spec_param_match(ps[ij.1].params@, after, Seq::empty());
                spec_sequential(ps, pm.1, assoc_set(acc, ps[ij.1].name@, pm.0))
            },
        }
    }
}

#[via_fn]
proof fn spec_sequential_decreases(ps: Seq<Param>, toks: Seq<Seq<char>>, acc: InvocationModel) {
    if toks.len() != 0 {
        match spec_find_cmd(ps, toks) {
            None => {},
            Some(ij) => {
                lemma_find_cmd(ps, toks);
                lemma_param_match_len(ps[ij.1].params@, toks.skip(ij.0 + 1), Seq::empty());
            },
        }
    }
}

/// The locations of all tokens at positions `i` and later that name some
/// command, each with the first command it names, ascending by position.
pub open spec fn spec_locations(ps: Seq<Param>, toks: Seq<Seq<char>>, i: int) -> Seq<(int, int)>
    decreases toks.len() - i,
{
    if i < 0 || i >= toks.len() {
        Seq::empty()
    } else {
        let rest = spec_locations(ps, toks, i + 1);
        match spec_find_param(ps, toks[i]) {
            Some(j) => seq![(i, j)] + rest,
            None => rest,
        }
    }
}

/// Every location is in range, carries a real match, and the positions are
/// strictly ascending.
pub proof fn lemma_locations_facts(ps: Seq<Param>, toks: Seq<Seq<char>>, i: int)
    requires
        0 <= i,
    ensures
        ({
            let locs = spec_locations(ps, toks, i);
            &&& forall|k: int|
                0 <= k < locs.len() ==> i <= #[trigger] locs[k].0 < toks.len() && 0 <= locs[k].1
                    < ps.len() && spec_find_param(ps, toks[locs[k].0]) == Some(locs[k].1)
            &&& forall|a: int, b: int| 0 <= a < b < locs.len() ==> locs[a].0 < locs[b].0
        }),
    decreases toks.len() - i,
{
    if i >= toks.len() {
    } else {
        lemma_locations_facts(ps, toks, i + 1);
        lemma_find_param(ps, toks[i]);
        let locs = spec_locations(ps, toks, i);
        let rest = spec_locations(ps, toks, i + 1);
        match spec_find_param(ps, toks[i]) {
            Some(j) => {
                assert(forall|k: int| 1 <= k < locs.len() ==> locs[k] == rest[k - 1]);
            },
            None => {},
        }
    }
}

/// What the location-based strategy yields from location `k` on, over the
/// remaining buffer `toks`: each location consumes, from the front of the
/// shared buffer, exactly the span up to the next location (the whole rest
/// for the last one); the identifier token is dropped, the span's remainder
/// feeds the command's slots, and tokens of the span that the slots leave
/// over are discarded.
pub open spec fn spec_process_locs(
    ps: Seq<Param>,
    locs: Seq<(int, int)>,
    k: int,
    toks: Seq<Seq<char>>,
    acc: InvocationModel,
) -> InvocationModel
    decreases locs.len() - k,
{
    if k < 0 || k >= locs.len() {
        acc
    } else {
        let width = if k + 1 < locs.len() {
            locs[k + 1].0 - locs[k].0
        } else {
            toks.len() as int
        };
        let window = toks.subrange(1, width);
        let pm = spec_param_match(ps[locs[k].1].params@, window, Seq::empty());
        spec_process_locs(
            ps,
            locs,
            k + 1,
            toks.skip(width),
            assoc_set(acc, ps[locs[k].1].name@, pm.0),
        )
    }
}

/// What one whole parse yields from the token sequence `toks`, under the
/// schema's mode flag.
pub open spec fn spec_parse_vec(c: CliParameters, toks: Seq<Seq<char>>) -> InvocationModel {
    if c.1 {
        spec_sequential(c.0@, toks, Seq::empty())
    } else {
        spec_process_locs(c.0@, spec_locations(c.0@, toks, 0), 0, toks, Seq::empty())
    }
}

/// The first command of `params` that `tok` names.
fn find_param_index(params: &Vec<Param>, tok: &String) -> (r: Option<usize>)
    ensures
        match r {
            Some(j) => spec_find_param(params@, tok@) == Some(j as int),
            None => spec_find_param(params@, tok@) is None,
        },
{
    let mut j: usize = 0;
    while j < params.len()
        invariant
            0 <= j <= params@.len(),
            forall|l: int| 0 <= l < j ==> !params@[l].spec_matches(tok@),
        decreases params@.len() - j,
    {
        if params[j].matches_token(tok) {
            proof {
                lemma_find_param(params@, tok@);
            }
            return Some(j);
        }
        j += 1;
    }
    proof {
        lemma_find_param(params@, tok@);
    }
    None
}

impl CliParameters {
    /// The earliest token of `args` naming some command, with that
    /// command's position.
    fn find_command(&self, args: &Vec<String>) -> (r: Option<(usize, usize)>)
        ensures
            match r {
                Some(ij) => spec_find_cmd(self.0@, args.deep_view()) == Some(
                    (ij.0 as int, ij.1 as int),
                ) && ij.0 < args@.len() && ij.1 < self.0@.len(),
                None => spec_find_cmd(self.0@, args.deep_view()) is None,
            },
    {
        let ghost dv = args.deep_view();
        let mut i: usize = 0;
        while i < args.len()
            invariant
                0 <= i <= args@.len(),
                dv == args.deep_view(),
                dv.len() == args@.len(),
                forall|l: int| 0 <= l < i ==> spec_find_param(self.0@, dv[l]) is None,
            decreases args@.len() - i,
        {
            proof {
                assert(dv[i as int] == args@[i as int]@);
            }
            match find_param_index(&self.0, &args[i]) {
                Some(j) => {
                    proof {
                        lemma_find_cmd(self.0@, dv);
                        lemma_find_param(self.0@, dv[i as int]);
                    }
                    return Some((i, j));
                },
                None => {},
            }
            i += 1;
        }
        proof {
            lemma_find_cmd(self.0@, dv);
        }
        None
    }

    /// Runs the sequential strategy over the buffer, folding each match
    /// into `ret`.
    fn process_sequentially(&self, args: &mut Vec<String>, ret: &mut Dict<Dict<ParamValue>>)
        requires
            old(ret).wf(),
        ensures
            final(ret).wf(),
            final(ret).deep_view() == spec_sequential(
                self.0@,
                old(args).deep_view(),
                old(ret).deep_view(),
            ),
    {
        let ghost ps = self.0@;
        let ghost goal = spec_sequential(ps, old(args).deep_view(), old(ret).deep_view());
        let mut go = true;
        while go
            invariant
                ret.wf(),
                goal == spec_sequential(ps, old(args).deep_view(), old(ret).deep_view()),
                ps == self.0@,
                go ==> spec_sequential(ps, args.deep_view(), ret.deep_view()) == goal,
                !go ==> ret.deep_view() == goal,
            decreases args@.len(), (if go {
                1int
            } else {
                0int
            }),
        {
            let ghost dv = args.deep_view();
            if args.len() == 0 {
                go = false;
            } else {
                match self.find_command(args) {
                    None => {
                        go = false;
                    },
                    Some((idx, j)) => {
                        proof {
                            lemma_find_cmd(ps, dv);
                        }
                        let boundary = idx + 1;
                        let mut tail = args.split_off(boundary);
                        args.clear();
                        args.append(&mut tail);
                        proof {
                            assert(args@ =~= old(args)@.subrange(0, 0).add(args@));
                            assert(args.deep_view() =~= dv.skip(boundary as int));
                        }
                        let pm = self.0[j].match_with(args);
                        proof {
                            ret.lemma_deep_view();
                            lemma_deep_entries_set(ret@, self.0@[j as int].name@, pm);
                        }
                        let ghost prev = ret.deep_view();
                        ret.insert(self.0[j].name.clone(), pm);
                        proof {
                            ret.lemma_deep_view();
                            assert(ret.deep_view() == assoc_set(prev, ps[j as int].name@,
                            pm.deep_view()));
                            lemma_param_match_len(ps[j as int].params@, dv.skip(idx + 1),
                            Seq::empty());
                            assert(spec_sequential(ps, dv, prev) == spec_sequential(
                                ps,
                                args.deep_view(),
                                ret.deep_view(),
                            ));
                        }
                    },
                }
            }
        }
        proof {
            assert(ret.deep_view() == goal);
        }
    }

    /// The locations of all tokens of `args` naming some command, each with
    /// the first command it names, ascending by token position.
    pub fn get_named_locations(&self, args: &Vec<String>) -> (r: Vec<(usize, usize)>)
        ensures
            locs_view(r@) == spec_locations(self.0@, args.deep_view(), 0),
    {
        let ghost ps = self.0@;
        let ghost dv = args.deep_view();
        let mut r: Vec<(usize, usize)> = Vec::new();
        proof {
            assert(locs_view(r@) =~= Seq::<(int, int)>::empty());
        }
        let mut i: usize = 0;
        while i < args.len()
            invariant
                0 <= i <= args@.len(),
                ps == self.0@,
                dv == args.deep_view(),
                dv.len() == args@.len(),
                locs_view(r@) + spec_locations(ps, dv, i as int) == spec_locations(ps, dv, 0),
            decreases args@.len() - i,
        {
            proof {
                assert(dv[i as int] == args@[i as int]@);
            }
            let ghost before = r@;
            match find_param_index(&self.0, &args[i]) {
                Some(j) => {
                    r.push((i, j));
                    proof {
                        assert(locs_view(r@) =~= locs_view(before) + seq![(i as int, j as int)]);
                        assert(spec_locations(ps, dv, i as int) == seq![(i as int, j as int)]
                            + spec_locations(ps, dv, i as int + 1));
                        assert(locs_view(r@) + spec_locations(ps, dv, i as int + 1) =~= locs_view(
                            before,
                        ) + spec_locations(ps, dv, i as int));
                    }
                },
                None => {
                    proof {
                        assert(spec_locations(ps, dv, i as int) == spec_locations(
                            ps,
                            dv,
                            i as int + 1,
                        ));
                    }
                },
            }
            i += 1;
        }
        proof {
            assert(spec_locations(ps, dv, args@.len() as int) =~= Seq::<(int, int)>::empty());
            assert(locs_view(r@) + Seq::<(int, int)>::empty() =~= locs_view(r@));
        }
        r
    }

    /// Runs the location-based strategy: the matches of `locations`, found
    /// on the very buffer `args` still holds, are consumed in strictly
    /// ascending position order off the front of that shared buffer.
    fn process_locations(
        &self,
        locations: &Vec<(usize, usize)>,
        args: &mut Vec<String>,
        ret: &mut Dict<Dict<ParamValue>>,
    )
        requires
            old(ret).wf(),
            locs_view(locations@) == spec_locations(self.0@, old(args).deep_view(), 0),
        ensures
            final(ret).wf(),
            final(ret).deep_view() == spec_process_locs(
                self.0@,
                locs_view(locations@),
                0,
                old(args).deep_view(),
                old(ret).deep_view(),
            ),
    {
        let ghost ps = self.0@;
        let ghost dv0 = old(args).deep_view();
        let ghost locs = locs_view(locations@);
        let ghost goal = spec_process_locs(ps, locs, 0, dv0, old(ret).deep_view());
        proof {
            assert(dv0.skip(0) =~= dv0);
        }
        let mut k: usize = 0;
        while k < locations.len()
            invariant
                0 <= k <= locations@.len(),
                ret.wf(),
                ps == self.0@,
                locs == locs_view(locations@),
                locs.len() == locations@.len(),
                locs == spec_locations(ps, dv0, 0),
                k < locations@.len() ==> args.deep_view() == dv0.skip(
                    locs[k as int].0 - locs[0].0,
                ),
                spec_process_locs(ps, locs, k as int, args.deep_view(), ret.deep_view()) == goal,
            decreases locations@.len() - k,
        {
            proof {
                lemma_locations_facts(ps, dv0, 0);
            }
            let ghost dvk = args.deep_view();
            let (idx, j) = locations[k];
            proof {
                assert(locs[k as int] == (idx as int, j as int));
                assert(idx < dv0.len());
                assert(j < ps.len());
                assert(0 <= locs[0].0 <= idx) by {
                    if k > 0 {
                        assert(locs[0].0 < locs[k as int].0);
                    }
                }
                assert(dvk.len() == dv0.len() - (idx - locs[0].0));
            }
            let width: usize = if k + 1 < locations.len() {
                proof {
                    assert(locs[k as int + 1] == (locations@[k as int + 1].0 as int, locations@[k
                        as int + 1].1 as int));
                    assert(locs[k as int].0 < locs[k as int + 1].0);
                    assert(locs[k as int + 1].0 < dv0.len());
                }
                locations[k + 1].0 - idx
            } else {
                args.len()
            };
            proof {
                assert(1 <= width <= dvk.len());
            }
            args.remove(0);
            let mut tail = args.split_off(width - 1);
            proof {
                assert(args.deep_view() =~= dvk.subrange(1, width as int));
                assert(tail.deep_view() =~= dvk.skip(width as int));
            }
            let pm = self.0[j].match_with(args);
            proof {
                ret.lemma_deep_view();
                lemma_deep_entries_set(ret@, self.0@[j as int].name@, pm);
            }
            let ghost prev = ret.deep_view();
            ret.insert(self.0[j].name.clone(), pm);
            args.clear();
            args.append(&mut tail);
            proof {
                ret.lemma_deep_view();
                assert(ret.deep_view() == assoc_set(prev, ps[j as int].name@, pm.deep_view()));
                assert(args.deep_view() =~= dvk.skip(width as int));
                assert(spec_process_locs(ps, locs, k as int, dvk, prev) == spec_process_locs(
                    ps,
                    locs,
                    k as int + 1,
                    args.deep_view(),
                    ret.deep_view(),
                ));
                if k + 1 < locations@.len() {
                    assert(dvk.skip(width as int) =~= dv0.skip(locs[k as int + 1].0 - locs[0].0));
                }
            }
            k += 1;
        }
        proof {
            assert(spec_process_locs(ps, locs, locations@.len() as int, args.deep_view(),
            ret.deep_view()) == ret.deep_view());
        }
    }

    /// Parses a token sequence against the schema, with the strategy the
    /// mode flag selects, into a map from each matched command's name to its
    /// typed values.
    pub fn parse_vec(&self, args: Vec<String>) -> (r: Dict<Dict<ParamValue>>)
        ensures
            r.wf(),
            r.deep_view() == spec_parse_vec(*self, args.deep_view()),
    {
        let mut buf = args;
        let mut ret: Dict<Dict<ParamValue>> = Dict::new();
        proof {
            ret.lemma_deep_view();
            assert(ret.deep_view() =~= Seq::<(Seq<char>, Seq<(Seq<char>, ValueModel)>)>::empty());
        }
        if self.1 {
            self.process_sequentially(&mut buf, &mut ret);
        } else {
            let locations = self.get_named_locations(&buf);
            self.process_locations(&locations, &mut buf, &mut ret);
        }
        ret
    }

    /// Splits `data` with the given strategy and parses the tokens.
    pub fn parse_str<F: Fn(&str) -> Vec<String>>(&self, data: &str, split: F) -> (r: Dict<
        Dict<ParamValue>,
    >)
        requires
            call_requires(split, (data,)),
        ensures
            r.wf(),
            exists|toks: Vec<String>|
                (#[trigger] call_ensures(split, (data,), toks)) && r.deep_view() == spec_parse_vec(
                    *self,
                    toks.deep_view(),
                ),
    {
        let toks = split(data);
        self.parse_vec(toks)
    }

    /// Splits `data` at whitespace and parses the tokens.
    pub fn parse_str_whitespace(&self, data: &str) -> (r: Dict<Dict<ParamValue>>)
        ensures
            r.wf(),
            r.deep_view() == spec_parse_vec(*self, whitespace_tokens(data@)),
    {
        let toks = split_whitespace_tokens(data);
        self.parse_vec(toks)
    }
}

/// The locations `s`, with each position read as a mathematical integer.
pub open spec fn locs_view(s: Seq<(usize, usize)>) -> Seq<(int, int)> {
    Seq::new(s.len(), |i: int| (s[i].0 as int, s[i].1 as int))
}

} // verus!
