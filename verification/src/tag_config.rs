//! Configuration for the tag injection feature.

use vstd::prelude::*;
use crate::strmap::{StrMap, lemma_text_pairs_insert, lemma_insert_unique};
use crate::text;

verus! {

/// Parsed tag configuration supplied via CLI or config file.
#[derive(Debug)]
pub struct TagConfig {
    /// Static key=value pairs supplied by the user, e.g. `--tag env=prod`.
    pub tags: StrMap<String>,
    /// Automatically add a `_source` field with the log file path.
    pub inject_source: bool,
}

/// The text before the first `=` (all of `arg` when there is none).
pub open spec fn before_eq(arg: Seq<char>) -> Seq<char> {
    match text::find(arg, seq!['=']) {
        Some(i) => arg.subrange(0, i),
        None => arg,
    }
}

/// The text after the first `=` (empty when there is none).
pub open spec fn after_eq(arg: Seq<char>) -> Seq<char> {
    match text::find(arg, seq!['=']) {
        Some(i) => arg.subrange(i + 1, arg.len() as int),
        None => Seq::empty(),
    }
}

/// The key of a `key=value` argument.
pub open spec fn tag_key(arg: Seq<char>) -> Seq<char> {
    text::trim(before_eq(arg))
}

/// The value of a `key=value` argument.
pub open spec fn tag_value(arg: Seq<char>) -> Seq<char> {
    text::trim(after_eq(arg))
}

/// The tags of the first `n` arguments, later keys replacing earlier ones.
pub open spec fn tag_pairs(args: Seq<Seq<char>>, n: int) -> Seq<(Seq<char>, Seq<char>)>
    decreases n,
{
    if n <= 0 {
        Seq::empty()
    } else {
        crate::strmap::pairs_insert(
            tag_pairs(args, n - 1),
            tag_key(args[n - 1]),
            tag_value(args[n - 1]),
        )
    }
}

/// Some argument among the first `n` has an empty key.
pub open spec fn has_bad_tag(args: Seq<Seq<char>>, n: int) -> bool {
    exists|i: int| 0 <= i < n && tag_key(args[i]).len() == 0
}

/// The first argument with an empty key.
pub open spec fn first_bad_tag(args: Seq<Seq<char>>) -> int {
    choose|i: int|
        0 <= i < args.len() && tag_key(args[i]).len() == 0 && forall|j: int|
            0 <= j < i ==> tag_key(args[j]).len() != 0
}

/// The message for an argument without a key.
pub open spec fn missing_key_message(arg: Seq<char>) -> Seq<char> {
    "Invalid tag (missing key): '"@ + arg + "'"@
}

/// Splits `arg` at its first `=` and trims both parts.
fn split_tag(arg: &str) -> (r: (Vec<char>, Vec<char>))
    ensures
        r.0@ == tag_key(arg@),
        r.1@ == tag_value(arg@),
{
    let cs = text::chars_of(arg);
    let eq: [char; 1] = ['='];
    proof {
        text::lemma_find_from(cs@, seq!['='], 0);
    }
    assert(eq@ =~= seq!['=']);
    let (key_raw, val_raw) = match text::find_seq(cs.as_slice(), &eq) {
        Some(i) => {
            assert(text::occurs_at(cs@, seq!['='], i as int));
            (text::slice_chars(cs.as_slice(), 0, i), text::slice_chars(cs.as_slice(), i + 1, cs.len()))
        },
        None => (cs.clone(), Vec::new()),
    };
    assert(key_raw@ == before_eq(arg@));
    assert(val_raw@ == after_eq(arg@));
    let (ka, kb) = text::trim_bounds(key_raw.as_slice());
    let (va, vb) = text::trim_bounds(val_raw.as_slice());
    (text::slice_chars(key_raw.as_slice(), ka, kb), text::slice_chars(val_raw.as_slice(), va, vb))
}

impl TagConfig {
    /// The tags, keys and values by their characters.
    pub open spec fn tags_view(&self) -> Seq<(Seq<char>, Seq<char>)> {
        crate::strmap::text_pairs(self.tags.pairs())
    }

    /// Parse a slice of `"key=value"` strings into a `TagConfig`.
    pub fn from_args(args: &[String], inject_source: bool) -> (r: Result<Self, String>)
        ensures
            r is Err <==> has_bad_tag(args@.map_values(|a: String| a@), args@.len() as int),
            r matches Err(e) ==> e@ == missing_key_message(
                args@[first_bad_tag(args@.map_values(|a: String| a@))]@,
            ),
            r matches Ok(cfg) ==> cfg.tags.wf() && cfg.inject_source == inject_source
                && cfg.tags_view() == tag_pairs(
                args@.map_values(|a: String| a@),
                args@.len() as int,
            ),
    {
        let ghost av = args@.map_values(|a: String| a@);
        let mut tags: StrMap<String> = StrMap::new();
        let mut i: usize = 0;
        assert(crate::strmap::text_pairs(tags.pairs()) =~= tag_pairs(av, 0));
        while i < args.len()
            invariant
                i <= args@.len(),
                av == args@.map_values(|a: String| a@),
                tags.wf(),
                crate::strmap::text_pairs(tags.pairs()) == tag_pairs(av, i as int),
                !has_bad_tag(av, i as int),
            decreases args@.len() - i,
        {
            let (key, val) = split_tag(args[i].as_str());
            if key.len() == 0 {
                let mut msg: Vec<char> = Vec::new();
                text::push_str(&mut msg, "Invalid tag (missing key): '");
                text::push_str(&mut msg, args[i].as_str());
                text::push_str(&mut msg, "'");
                proof {
                    assert(tag_key(av[i as int]).len() == 0);
                    let b = first_bad_tag(av);
                    assert(has_bad_tag(av, av.len() as int));
                    assert(0 <= b < av.len() && tag_key(av[b]).len() == 0);
                    if b < i {
                        assert(has_bad_tag(av, i as int));
                    }
                    if b > i {
                        assert(tag_key(av[i as int]).len() != 0);
                    }
                    assert(b == i);
                }
                return Err(text::string_from_chars(msg.as_slice()));
            }
            let k = text::string_from_chars(key.as_slice());
            let v = text::string_from_chars(val.as_slice());
            proof {
                lemma_text_pairs_insert(tags.pairs(), k@, v);
                lemma_insert_unique(tags.pairs(), k@, v);
            }
            tags.insert(k, v);
            i = i + 1;
            assert(!has_bad_tag(av, i as int)) by {
                if has_bad_tag(av, i as int) {
                    let j = choose|j: int| 0 <= j < i && tag_key(av[j]).len() == 0;
                    if j < i - 1 {
                        assert(has_bad_tag(av, i - 1));
                    }
                }
            }
        }
        Ok(TagConfig { tags, inject_source })
    }

    pub fn is_empty(&self) -> (b: bool)
        ensures
            b == (self.tags.pairs().len() == 0 && !self.inject_source),
    {
        self.tags.is_empty() && !self.inject_source
    }
}

impl Default for TagConfig {
    fn default() -> (c: Self)
        ensures
            c.tags.pairs().len() == 0,
            c.tags.wf(),
            !c.inject_source,
    {
        TagConfig { tags: StrMap::new(), inject_source: false }
    }
}

} // verus!
