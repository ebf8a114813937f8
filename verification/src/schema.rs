//! The schema model: commands, their positional sub-parameters, and the
//! validated construction of both from a document tree.

use vstd::prelude::*;
use vstd::string::StringExecFns;
use crate::doc::DocValue;
use crate::errors::{ClitcError, MissingInformationError, WrongFormatError};
use crate::text::{spec_dec, str_eq, u64_dec};

verus! {

/// The type tag of one positional sub-parameter.
#[derive(Clone, Copy, Debug, PartialEq, Eq, Structural)]
pub enum SubParamType {
    Array,
    Int,
    Str,
    Num,
}

impl SubParamType {
    /// The tag's name, as a schema document writes it.
    pub open spec fn spec_info(self) -> Seq<char> {
        match self {
            SubParamType::Array => "array"@,
            SubParamType::Int => "int"@,
            SubParamType::Str => "string"@,
            SubParamType::Num => "num"@,
        }
    }

    /// The tag written as `s`, if `s` is one of the four recognized names.
    pub open spec fn spec_from_tag(s: Seq<char>) -> Option<SubParamType> {
        if s == "array"@ {
            Some(SubParamType::Array)
        } else if s == "int"@ {
            Some(SubParamType::Int)
        } else if s == "string"@ {
            Some(SubParamType::Str)
        } else if s == "num"@ {
            Some(SubParamType::Num)
        } else {
            None
        }
    }

    /// The tag's name, for help text.
    pub fn info(&self) -> (r: &'static str)
        ensures
            r@ == self.spec_info(),
    {
        match self {
            SubParamType::Array => "array",
            SubParamType::Int => "int",
            SubParamType::Str => "string",
            SubParamType::Num => "num",
        }
    }

    /// Reads a type tag; an unrecognized one is a format failure.
    pub fn from(s: &str) -> (r: Result<SubParamType, ClitcError>)
        ensures
            match SubParamType::spec_from_tag(s@) {
                Some(t) => r == Ok::<SubParamType, ClitcError>(t),
                None => r == Err::<SubParamType, ClitcError>(
                    ClitcError::WrongFormat(WrongFormatError),
                ),
            },
    {
        if str_eq(s, "array") {
            Ok(SubParamType::Array)
        } else if str_eq(s, "int") {
            Ok(SubParamType::Int)
        } else if str_eq(s, "string") {
            Ok(SubParamType::Str)
        } else if str_eq(s, "num") {
            Ok(SubParamType::Num)
        } else {
            Err(ClitcError::WrongFormat(WrongFormatError))
        }
    }
}

/// One positional, typed argument slot of a command.
#[derive(Debug)]
pub struct SubParam {
    /// The slot's position among its siblings; unique within one command.
    pub ord: u64,
    /// The semantic name the slot reports its value under, when given.
    pub name: Option<String>,
    /// The slot's type tag.
    pub ptype: SubParamType,
}

/// What construction of a sub-parameter from the document node `v` yields:
/// `ord` and `type` are required, `name` is optional, and the type tag must
/// be recognized.
pub open spec fn spec_sub_from(v: DocValue) -> Result<SubParam, ClitcError> {
    match v.spec_field("ord"@).spec_number() {
        None => Err(ClitcError::MissingInformation(MissingInformationError)),
        Some(ord) => {
            let name = v.spec_field("name"@).spec_text();
            match v.spec_field("type"@).spec_text() {
                None => Err(ClitcError::MissingInformation(MissingInformationError)),
                Some(t) => match SubParamType::spec_from_tag(t@) {
                    None => Err(ClitcError::WrongFormat(WrongFormatError)),
                    Some(pt) => Ok(SubParam { ord, name, ptype: pt }),
                },
            }
        },
    }
}

impl SubParam {
    /// The key this slot reports its value under: the name when given, the
    /// ordinal's decimal writing otherwise.
    pub open spec fn spec_key(self) -> Seq<char> {
        match self.name {
            Some(n) => n@,
            None => spec_dec(self.ord as nat),
        }
    }

    /// Reads one sub-parameter entry of the document tree.
    pub fn from(v: &DocValue) -> (r: Result<SubParam, ClitcError>)
        ensures
            r == spec_sub_from(*v),
    {
        let ord = match v.nat_field("ord") {
            Some(o) => o,
            None => {
                return Err(ClitcError::MissingInformation(MissingInformationError));
            },
        };
        let name = v.text_field("name");
        let tag = match v.text_field("type") {
            Some(t) => t,
            None => {
                return Err(ClitcError::MissingInformation(MissingInformationError));
            },
        };
        let ptype = match SubParamType::from(tag.as_str()) {
            Ok(p) => p,
            Err(e) => {
                return Err(e);
            },
        };
        Ok(SubParam { ord, name, ptype })
    }

    /// The key this slot reports its value under.
    pub fn get_name(&self) -> (r: String)
        ensures
            r@ == self.spec_key(),
    {
        match &self.name {
            Some(n) => n.clone(),
            None => u64_dec(self.ord),
        }
    }
}

/// Whether some slot of `subs` carries the ordinal `o`.
pub open spec fn spec_has_ord(subs: Seq<SubParam>, o: u64) -> bool {
    exists|i: int| 0 <= i < subs.len() && subs[i].ord == o
}

/// What collecting the sub-parameter entries `items` on top of `acc`
/// yields: each entry must read as a sub-parameter, and an ordinal already
/// seen is a format failure.
pub open spec fn spec_subs_from(items: Seq<DocValue>, acc: Seq<SubParam>) -> Result<
    Seq<SubParam>,
    ClitcError,
>
    decreases items.len(),
{
    if items.len() == 0 {
        Ok(acc)
    } else {
        match spec_sub_from(items[0]) {
            Err(e) => Err(e),
            Ok(sp) => if spec_has_ord(acc, sp.ord) {
                Err(ClitcError::WrongFormat(WrongFormatError))
            } else {
                spec_subs_from(items.drop_first(), acc.push(sp))
            },
        }
    }
}

/// One command of the schema: an optional short alias, the canonical name,
/// an optional description, and the sub-parameters ordered by ordinal.
#[derive(Debug)]
pub struct Param {
    /// The optional short alias that also names the command.
    pub short: Option<String>,
    /// The canonical name: the dispatch identifier and result key.
    pub name: String,
    /// The optional description used for help text.
    pub descr: Option<String>,
    /// The sub-parameters, ascending by ordinal.
    pub params: Vec<SubParam>,
}

/// What reading the parts of one command entry yields: the name is
/// required, and the `params` list (read as empty when absent or not a
/// list) must collect without a repeated ordinal.
pub open spec fn spec_param_subs(v: DocValue) -> Result<Seq<SubParam>, ClitcError> {
    if v.spec_field("name"@).spec_text() is None {
        Err(ClitcError::MissingInformation(MissingInformationError))
    } else {
        match v.spec_field("params"@).spec_list() {
            Some(l) => spec_subs_from(l@, Seq::empty()),
            None => Ok(Seq::empty()),
        }
    }
}

/// Whether `p` is the command that the document entry `v` describes: same
/// alias, name and description, and the collected sub-parameters rearranged
/// ascending by ordinal.
pub open spec fn is_param_of(p: Param, v: DocValue) -> bool {
    &&& v.spec_field("name"@).spec_text() == Some(p.name)
    &&& p.short == v.spec_field("short"@).spec_text()
    &&& p.descr == v.spec_field("descr"@).spec_text()
    &&& spec_param_subs(v) matches Ok(subs) && p.params@.to_multiset() == subs.to_multiset()
    &&& p.wf()
}

/// Inserting anywhere in a sequence adds the element to its multiset.
proof fn lemma_insert_to_multiset<A>(s: Seq<A>, k: int, a: A)
    requires
        0 <= k <= s.len(),
    ensures
        s.insert(k, a).to_multiset() == s.to_multiset().insert(a),
{
    broadcast use vstd::seq_lib::group_to_multiset_ensures;

    let big = s.insert(k, a);
    assert(big.remove(k) =~= s);
    assert(big[k] == a);
    assert(big.to_multiset().contains(a)) by {
        assert(big.contains(a));
    }
    assert(big.remove(k).to_multiset() =~= big.to_multiset().remove(a));
    assert(big.to_multiset() =~= s.to_multiset().insert(a)) by {
        assert(forall|x: A| #[trigger] big.to_multiset().count(x) == s.to_multiset().insert(
            a,
        ).count(x)) by {
            assert(forall|x: A| #[trigger] s.to_multiset().count(x) == big.to_multiset().remove(
                a,
            ).count(x));
        }
    }
}

/// Sequences with equal multisets carry the same ordinals.
proof fn lemma_has_ord_same_multiset(s1: Seq<SubParam>, s2: Seq<SubParam>, o: u64)
    requires
        s1.to_multiset() == s2.to_multiset(),
    ensures
        spec_has_ord(s1, o) == spec_has_ord(s2, o),
{
    broadcast use vstd::seq_lib::group_to_multiset_ensures;

    if spec_has_ord(s1, o) {
        let i = choose|i: int| 0 <= i < s1.len() && s1[i].ord == o;
        assert(s1.contains(s1[i]));
        assert(s1.to_multiset().count(s1[i]) > 0);
        assert(s2.to_multiset().count(s1[i]) > 0);
        assert(s2.contains(s1[i]));
        let j = choose|j: int| 0 <= j < s2.len() && s2[j] == s1[i];
        assert(spec_has_ord(s2, o));
    }
    if spec_has_ord(s2, o) {
        let i = choose|i: int| 0 <= i < s2.len() && s2[i].ord == o;
        assert(s2.contains(s2[i]));
        assert(s2.to_multiset().count(s2[i]) > 0);
        assert(s1.to_multiset().count(s2[i]) > 0);
        assert(s1.contains(s2[i]));
        let j = choose|j: int| 0 <= j < s1.len() && s1[j] == s2[i];
        assert(spec_has_ord(s1, o));
    }
}

impl Param {
    /// Sub-parameters strictly ascending by ordinal; in particular the
    /// ordinals are pairwise distinct.
    pub open spec fn wf(self) -> bool {
        forall|i: int, j: int|
            0 <= i < j < self.params@.len() ==> self.params@[i].ord < self.params@[j].ord
    }

    /// Whether the token `tok` names this command, by its canonical name or
    /// its short alias.
    pub open spec fn spec_matches(self, tok: Seq<char>) -> bool {
        tok == self.name@ || (self.short matches Some(s) && tok == s@)
    }

    /// Whether the token `tok` names this command.
    pub fn matches_token(&self, tok: &String) -> (r: bool)
        ensures
            r == self.spec_matches(tok@),
    {
        if let Some(s) = &self.short {
            if str_eq(s.as_str(), tok.as_str()) {
                return true;
            }
        }
        str_eq(self.name.as_str(), tok.as_str())
    }

    /// Reads one command entry of the document tree, validating it whole:
    /// no partially-built command is ever returned.
    pub fn from(v: &DocValue) -> (r: Result<Param, ClitcError>)
        ensures
            match r {
                Ok(p) => spec_param_subs(*v) is Ok && is_param_of(p, *v),
                Err(e) => spec_param_subs(*v) == Err::<Seq<SubParam>, ClitcError>(e),
            },
    {
        let short = v.text_field("short");
        let name = match v.text_field("name") {
            Some(n) => n,
            None => {
                return Err(ClitcError::MissingInformation(MissingInformationError));
            },
        };
        let descr = v.text_field("descr");
        let mut params: Vec<SubParam> = Vec::new();
        match v.list_field("params") {
            Some(list) => {
                let ghost items = list@;
                let ghost mut collected: Seq<SubParam> = Seq::empty();
                proof {
                    assert(items.skip(0) =~= items);
                    assert(spec_param_subs(*v) == spec_subs_from(items, Seq::<SubParam>::empty()));
                }
                let mut i: usize = 0;
                while i < list.len()
                    invariant
                        0 <= i <= list.len(),
                        items == list@,
                        spec_param_subs(*v) == spec_subs_from(items, Seq::<SubParam>::empty()),
                        spec_subs_from(items, Seq::empty()) == spec_subs_from(
                            items.skip(i as int),
                            collected,
                        ),
                        params@.to_multiset() == collected.to_multiset(),
                        forall|a: int, b: int|
                            0 <= a < b < params@.len() ==> params@[a].ord < params@[b].ord,
                    decreases list.len() - i,
                {
                    proof {
                        assert(items.skip(i as int)[0] == items[i as int]);
                        assert(items.skip(i as int).drop_first() =~= items.skip(i as int + 1));
                    }
                    let sp = match SubParam::from(&list[i]) {
                        Ok(sp) => sp,
                        Err(e) => {
                            return Err(e);
                        },
                    };
                    let mut k: usize = 0;
                    while k < params.len() && params[k].ord < sp.ord
                        invariant
                            0 <= k <= params@.len(),
                            forall|j: int| 0 <= j < k ==> params@[j].ord < sp.ord,
                        decreases params@.len() - k,
                    {
                        k += 1;
                    }
                    if k < params.len() && params[k].ord == sp.ord {
                        proof {
                            assert(spec_has_ord(params@, sp.ord));
                            lemma_has_ord_same_multiset(params@, collected, sp.ord);
                        }
                        return Err(ClitcError::WrongFormat(WrongFormatError));
                    }
                    proof {
                        assert(k < params@.len() ==> params@[k as int].ord > sp.ord);
                        assert(!spec_has_ord(params@, sp.ord)) by {
                            if spec_has_ord(params@, sp.ord) {
                                let j = choose|j: int|
                                    0 <= j < params@.len() && params@[j].ord == sp.ord;
                                if k < j {
                                    assert(params@[k as int].ord < params@[j].ord);
                                }
                                assert(false);
                            }
                        }
                        lemma_has_ord_same_multiset(params@, collected, sp.ord);
                    }
                    let ghost before = params@;
                    params.insert(k, sp);
                    proof {
                        broadcast use vstd::seq_lib::group_to_multiset_ensures;

                        lemma_insert_to_multiset(before, k as int, sp);
                        assert(params@ == before.insert(k as int, sp));
                        assert(forall|x: int| 0 <= x < k ==> params@[x] == before[x]);
                        assert(params@[k as int] == sp);
                        assert(forall|x: int|
                            k < x < params@.len() ==> params@[x] == before[x - 1]);
                        assert forall|a: int, b: int|
                            0 <= a < b < params@.len() implies params@[a].ord
                            < params@[b].ord by {
                            if a < k && b > k {
                                assert(before[a].ord < sp.ord);
                                assert(before[b - 1].ord > sp.ord || b - 1 == k);
                            }
                            if a > k && b > k {
                                assert(before[a - 1].ord < before[b - 1].ord);
                            }
                            if a == k && b > k {
                                assert(before[b - 1].ord >= before[k as int].ord || b - 1 == k);
                            }
                        }
                        let ghost prev = collected;
                        collected = collected.push(sp);
                        assert(params@.to_multiset() == collected.to_multiset());
                        assert(spec_subs_from(items.skip(i as int), prev) == spec_subs_from(
                            items.skip(i as int + 1),
                            collected,
                        ));
                    }
                    i += 1;
                }
                proof {
                    assert(items.skip(list.len() as int) =~= Seq::<DocValue>::empty());
                    assert(spec_param_subs(*v) matches Ok(subs) && params@.to_multiset()
                        == subs.to_multiset());
                }
            },
            None => {
                proof {
                    assert(params@ =~= Seq::<SubParam>::empty());
                    assert(spec_param_subs(*v) matches Ok(subs) && params@.to_multiset()
                        == subs.to_multiset());
                }
            },
        }
        let p = Param { short, name, descr, params };
        Ok(p)
    }
}

/// The heading of a command's help text: a tab, the name (with `/ ` and the
/// short alias after it, when one is given), a tab, and the description (or
/// nothing where none is given).
pub open spec fn spec_info_head(p: Param) -> Seq<char> {
    let named = match p.short {
        Some(s) => p.name@ + "/ "@ + s@,
        None => p.name@,
    };
    let described = match p.descr {
        Some(d) => d@,
        None => Seq::<char>::empty(),
    };
    "\t"@ + named + "\t"@ + described
}

/// One slot's help line: two tabs, the slot's key, a colon, a tab, and the
/// type tag's name.
pub open spec fn spec_info_line(sp: SubParam) -> Seq<char> {
    "\t\t"@ + sp.spec_key() + ":\t"@ + sp.ptype.spec_info()
}

impl Param {
    /// The command's help text: its heading, then one line per slot.
    pub open spec fn spec_info(self) -> Seq<Seq<char>> {
        seq![spec_info_head(self)] + self.params@.map_values(|sp: SubParam| spec_info_line(sp))
    }

    /// Renders the command's help text.
    pub fn info(&self) -> (r: Vec<String>)
        ensures
            r.deep_view() == self.spec_info(),
    {
        let mut head = String::new();
        head.append("\t");
        head.append(self.name.as_str());
        if let Some(short) = &self.short {
            head.append("/ ");
            head.append(short.as_str());
        }
        head.append("\t");
        if let Some(d) = &self.descr {
            head.append(d.as_str());
        }
        proof {
            assert(head@ =~= spec_info_head(*self));
        }
        let mut r: Vec<String> = Vec::new();
        r.push(head);
        let ghost lines = self.params@.map_values(|sp: SubParam| spec_info_line(sp));
        let mut i: usize = 0;
        while i < self.params.len()
            invariant
                0 <= i <= self.params@.len(),
                lines == self.params@.map_values(|sp: SubParam| spec_info_line(sp)),
                r@.len() == i + 1,
                r@[0]@ == spec_info_head(*self),
                forall|j: int| 0 <= j < i ==> r@[j + 1]@ == lines[j],
            decreases self.params@.len() - i,
        {
            let mut line = String::new();
            line.append("\t\t");
            let key = self.params[i].get_name();
            line.append(key.as_str());
            line.append(":\t");
            line.append(self.params[i].ptype.info());
            proof {
                assert(line@ =~= spec_info_line(self.params@[i as int]));
            }
            r.push(line);
            i += 1;
        }
        proof {
            assert(r.deep_view() =~= self.spec_info());
        }
        r
    }
}

/// The whole schema: the commands in declaration order, and the mode flag
/// selecting sequential (true) or location-based (false) matching.
#[derive(Debug)]
pub struct CliParameters(pub Vec<Param>, pub bool);

/// The first failure among the command entries `items`, if any.
pub open spec fn spec_params_err(items: Seq<DocValue>) -> Option<ClitcError>
    decreases items.len(),
{
    if items.len() == 0 {
        None
    } else {
        match spec_param_subs(items[0]) {
            Err(e) => Some(e),
            Ok(_) => spec_params_err(items.drop_first()),
        }
    }
}

impl CliParameters {
    /// Builds the schema from a document tree whose root carries the
    /// required `options` list; validation failures abort construction
    /// entirely.  A fresh schema matches location-based.
    pub fn from(v: &DocValue) -> (r: Result<CliParameters, ClitcError>)
        ensures
            match r {
                Ok(c) => {
                    &&& v.spec_field("options"@).spec_list() matches Some(l) && c.0@.len()
                        == l@.len() && (forall|i: int|
                        0 <= i < l@.len() ==> is_param_of(c.0@[i], l@[i]))
                    &&& c.1 == false
                },
                Err(e) => match v.spec_field("options"@).spec_list() {
                    Some(l) => spec_params_err(l@) == Some(e),
                    None => e == ClitcError::WrongFormat(WrongFormatError),
                },
            },
            r is Ok <==> (v.spec_field("options"@).spec_list() is Some && spec_params_err(
                v.spec_field("options"@).spec_list()->Some_0@,
            ) is None),
    {
        let list = match v.list_field("options") {
            Some(l) => l,
            None => {
                return Err(ClitcError::WrongFormat(WrongFormatError));
            },
        };
        let ghost items = list@;
        let mut params: Vec<Param> = Vec::new();
        proof {
            assert(items.skip(0) =~= items);
        }
        let mut i: usize = 0;
        while i < list.len()
            invariant
                0 <= i <= list.len(),
                items == list@,
                v.spec_field("options"@).spec_list() == Some(*list),
                params@.len() == i,
                forall|j: int| 0 <= j < i ==> is_param_of(params@[j], items[j]),
                spec_params_err(items) == spec_params_err(items.skip(i as int)),
            decreases list.len() - i,
        {
            proof {
                assert(items.skip(i as int)[0] == items[i as int]);
                assert(items.skip(i as int).drop_first() =~= items.skip(i as int + 1));
            }
            match Param::from(&list[i]) {
                Ok(p) => params.push(p),
                Err(e) => {
                    return Err(e);
                },
            }
            i += 1;
        }
        proof {
            assert(items.skip(list.len() as int) =~= Seq::<DocValue>::empty());
        }
        Ok(CliParameters(params, false))
    }

    /// Switches between sequential (true) and location-based (false)
    /// matching.
    pub fn set_sequential_processing(&mut self, sequential: bool)
        ensures
            final(self).0 == old(self).0,
            final(self).1 == sequential,
    {
        self.1 = sequential;
    }

    /// The commands of the schema, in declaration order.
    pub fn iter(&self) -> (r: &Vec<Param>)
        ensures
            *r == self.0,
    {
        &self.0
    }
}

} // verus!
