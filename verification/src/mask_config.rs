//! Configuration entries for field masking rules, as read from a config file.

use vstd::prelude::*;
use crate::mask::{MaskConfig, MaskRule};
use crate::strmap::{self, StrMap};
use crate::text;

verus! {

/// One masking rule as written in a configuration file.
#[derive(Debug, Clone)]
pub struct RawMaskEntry {
    /// "prefix" | "suffix" | "full"
    pub mode: String,
    pub n: Option<usize>,
    pub placeholder: Option<String>,
}

/// What `into_rule` gives for an entry.
pub open spec fn rule_of(mode: Seq<char>, n: Option<usize>, placeholder: Option<Seq<char>>, r: Result<MaskRule, String>) -> bool {
    if mode == "prefix"@ {
        match n {
            Some(k) => r == Ok::<MaskRule, String>(MaskRule::Prefix(k)),
            None => r matches Err(e) && e@ == "prefix mode requires `n`"@,
        }
    } else if mode == "suffix"@ {
        match n {
            Some(k) => r == Ok::<MaskRule, String>(MaskRule::Suffix(k)),
            None => r matches Err(e) && e@ == "suffix mode requires `n`"@,
        }
    } else if mode == "full"@ {
        r matches Ok(MaskRule::Full(p)) && p@ == match placeholder {
            Some(q) => q,
            None => "[MASKED]"@,
        }
    } else {
        r matches Err(e) && e@ == "unknown mask mode: "@ + mode
    }
}

/// The entry describes a valid rule.
pub open spec fn entry_valid(mode: Seq<char>, n: Option<usize>) -> bool {
    ((mode == "prefix"@ || mode == "suffix"@) && n is Some) || mode == "full"@
}

impl RawMaskEntry {
    /// The placeholder, by its characters.
    pub open spec fn placeholder_view(&self) -> Option<Seq<char>> {
        match self.placeholder {
            Some(p) => Some(p@),
            None => None,
        }
    }

    /// The entry describes a valid rule.
    pub open spec fn valid(&self) -> bool {
        entry_valid(self.mode@, self.n)
    }

    pub fn new_prefix(n: usize) -> (e: Self)
        ensures
            e.mode@ == "prefix"@,
            e.n == Some(n),
            e.placeholder is None,
    {
        RawMaskEntry { mode: "prefix".to_owned(), n: Some(n), placeholder: None }
    }

    pub fn new_suffix(n: usize) -> (e: Self)
        ensures
            e.mode@ == "suffix"@,
            e.n == Some(n),
            e.placeholder is None,
    {
        RawMaskEntry { mode: "suffix".to_owned(), n: Some(n), placeholder: None }
    }

    pub fn new_full(placeholder: &str) -> (e: Self)
        ensures
            e.mode@ == "full"@,
            e.n is None,
            e.placeholder_view() == Some(placeholder@),
    {
        RawMaskEntry { mode: "full".to_owned(), n: None, placeholder: Some(placeholder.to_owned()) }
    }

    /// The rule this entry describes, or why it describes none.
    pub fn into_rule(self) -> (r: Result<MaskRule, String>)
        ensures
            rule_of(self.mode@, self.n, self.placeholder_view(), r),
            r is Ok <==> self.valid(),
    {
        proof {
            reveal_strlit("prefix");
            reveal_strlit("suffix");
            reveal_strlit("full");
            assert("prefix"@.len() == 6 && "suffix"@.len() == 6 && "full"@.len() == 4);
            assert("prefix"@[0] == 'p' && "suffix"@[0] == 's');
            assert("prefix"@ != "suffix"@ && "prefix"@ != "full"@ && "suffix"@ != "full"@);
        }
        let mode = self.mode.as_str();
        if text::str_eq(mode, "prefix") {
            match self.n {
                Some(n) => Ok(MaskRule::Prefix(n)),
                None => Err("prefix mode requires `n`".to_owned()),
            }
        } else if text::str_eq(mode, "suffix") {
            match self.n {
                Some(n) => Ok(MaskRule::Suffix(n)),
                None => Err("suffix mode requires `n`".to_owned()),
            }
        } else if text::str_eq(mode, "full") {
            let ph = match self.placeholder {
                Some(p) => p,
                None => "[MASKED]".to_owned(),
            };
            Ok(MaskRule::Full(ph))
        } else {
            let mut msg: Vec<char> = Vec::new();
            text::push_str(&mut msg, "unknown mask mode: ");
            text::push_str(&mut msg, mode);
            Err(text::string_from_chars(msg.as_slice()))
        }
    }
}

/// Build a `MaskConfig` from a map of field-name -> raw entry; the first
/// invalid entry, in map order, is reported.
pub fn build_mask_config(entries: StrMap<RawMaskEntry>) -> (r: Result<MaskConfig, String>)
    requires
        entries.wf(),
    ensures
        r is Ok <==> forall|i: int| 0 <= i < entries.pairs().len() ==> (#[trigger] entries.pairs()[i]).1.valid(),
        r matches Ok(cfg) ==> cfg.fields.wf() && cfg.rules().len() == entries.pairs().len()
            && forall|i: int| 0 <= i < entries.pairs().len() ==> (#[trigger] cfg.rules()[i]).0
            == entries.pairs()[i].0 && rule_of(
                entries.pairs()[i].1.mode@,
                entries.pairs()[i].1.n,
                entries.pairs()[i].1.placeholder_view(),
                Ok(cfg.rules()[i].1),
            ),
        r matches Err(e) ==> exists|i: int|
            0 <= i < entries.pairs().len() && !(#[trigger] entries.pairs()[i]).1.valid() && rule_of(
                entries.pairs()[i].1.mode@,
                entries.pairs()[i].1.n,
                entries.pairs()[i].1.placeholder_view(),
                Err(e),
            ) && forall|j: int| 0 <= j < i ==> (#[trigger] entries.pairs()[j]).1.valid(),
{
    let ghost ep = entries.pairs();
    let mut rest = entries.into_entries();
    let n = rest.len();
    proof {
        assert(rest@.map_values(|e: (String, RawMaskEntry)| (e.0@, e.1)).len() == rest@.len());
        assert forall|k: int| 0 <= k < rest@.len() implies (#[trigger] rest@[k]).0@ == ep[k].0 && rest@[k].1 == ep[k].1 by {
            assert(rest@.map_values(|e: (String, RawMaskEntry)| (e.0@, e.1))[k] == ep[k]);
        }
    }
    let mut fields: StrMap<MaskRule> = StrMap::new();
    let mut i: usize = 0;
    while i < n
        invariant
            i <= ep.len(),
            n == ep.len(),
            ep == entries.pairs(),
            rest@.len() == n - i,
            forall|k: int| 0 <= k < rest@.len() ==> (#[trigger] rest@[k]).0@ == ep[i + k].0 && rest@[k].1 == ep[i + k].1,
            strmap::unique_keys(ep),
            fields.wf(),
            fields.pairs().len() == i,
            forall|j: int| 0 <= j < i ==> (#[trigger] ep[j]).1.valid(),
            forall|j: int| 0 <= j < i ==> (#[trigger] fields.pairs()[j]).0 == ep[j].0 && rule_of(
                ep[j].1.mode@,
                ep[j].1.n,
                ep[j].1.placeholder_view(),
                Ok(fields.pairs()[j].1),
            ),
        decreases ep.len() - i,
    {
        let ghost before_rest = rest@;
        assert(before_rest[0].0@ == ep[i as int].0 && before_rest[0].1 == ep[i as int].1);
        let (field, entry) = rest.remove(0);
        assert(entry == ep[i as int].1 && field@ == ep[i as int].0);
        assert forall|k: int| 0 <= k < rest@.len() implies (#[trigger] rest@[k]).0@ == ep[i + 1 + k].0
            && rest@[k].1 == ep[i + 1 + k].1 by {
            assert(rest@[k] == before_rest[k + 1]);
        }
        let rule = match entry.into_rule() {
            Ok(rule) => rule,
            Err(e) => {
                assert(!ep[i as int].1.valid());
                assert(rule_of(ep[i as int].1.mode@, ep[i as int].1.n, ep[i as int].1.placeholder_view(), Err(e)));
                assert(0 <= i < ep.len() && !ep[i as int].1.valid());
                return Err(e);
            },
        };
        proof {
            assert(!strmap::has_key(fields.pairs(), field@)) by {
                if strmap::has_key(fields.pairs(), field@) {
                    let k = strmap::key_index(fields.pairs(), field@);
                    assert(ep[k].0 == ep[i as int].0);
                }
            }
        }
        let ghost before = fields.pairs();
        fields.insert(field, rule);
        assert(fields.pairs() == before.push((ep[i as int].0, rule)));
        i = i + 1;
    }
    Ok(MaskConfig::new(fields))
}

} // verus!
