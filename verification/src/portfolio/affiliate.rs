//! Affiliates: the persons or accounts (and their registered and cost pool
//! variants) that transactions belong to.

use vstd::prelude::*;
use crate::util::text::{
    bracket_match, collapse_spaces, has_registered_marker, regex_captures_call,
    regex_is_match_call, regex_replace_all_call, regex_check_call, replace_registered_markers,
    starts_with, starts_with_spec, str_eq, to_lowercase, trim, trim_spec, unicode_lowercase,
    lemma_collapse_keeps, lemma_collapse_trim_twice, lemma_trim_empty,
    lemma_collapse_trim_all_whitespace, no_double_space, trim_start_spec, trim_end_spec,
    is_unicode_whitespace, lemma_collapse_no_double, lemma_collapse_trailing_spaces,
    lemma_first_index_found, lemma_first_index_none, lemma_replace_markers_prefix, lemma_trim_props,
    registered_marker_at, spaces,
};

verus! {

/// The id of the special affiliate that stands for all affiliates.
pub const GLOBAL_AF_ID: &'static str = "__global__";

/// Two or more spaces in a row.
pub const EXTRA_SPACE_PATTERN: &'static str = "  +";

/// The registered marker `(R)` (either case).
pub const REGISTERED_PATTERN: &'static str = "\\([rR]\\)";

/// A cost pool marker `[<tag>]`; the group is the tag.
pub const COST_POOL_PATTERN: &'static str = "\\[([^\\]]*)\\]";

/// What an affiliate is made of.
pub struct AffiliateView {
    /// Lower-cased id, with " (R)" when registered and " [tag]" for a cost pool.
    pub id: Seq<char>,
    /// The cleaned base display name, without markers.
    pub name_base: Seq<char>,
    /// The full display name, which reads back to the same affiliate.
    pub name: Seq<char>,
    pub registered: bool,
    pub cost_pool_tag: Option<Seq<char>>,
}

/// Runs of spaces collapsed to one, then trimmed.
pub open spec fn clean_name(s: Seq<char>) -> Seq<char> {
    trim_spec(collapse_spaces(s))
}

pub open spec fn default_display_name() -> Seq<char> {
    "Default"@
}

pub open spec fn registered_suffix() -> Seq<char> {
    " (R)"@
}

/// The affiliate built from a base name, registered status and optional cost
/// pool tag.
pub open spec fn affiliate_from_parts(
    name_base: Seq<char>,
    registered: bool,
    cost_pool_tag: Option<Seq<char>>,
) -> AffiliateView {
    let cleaned = clean_name(name_base);
    let pretty = if cleaned.len() == 0 {
        default_display_name()
    } else {
        cleaned
    };
    let base_id = if registered {
        unicode_lowercase(pretty) + registered_suffix()
    } else {
        unicode_lowercase(pretty)
    };
    let base_name = if registered {
        pretty + registered_suffix()
    } else {
        pretty
    };
    let tag = match cost_pool_tag {
        Some(t) => if clean_name(t).len() == 0 {
            None
        } else {
            Some(clean_name(t))
        },
        None => None,
    };
    let (id, name) = match tag {
        Some(t) => (
            base_id + " ["@ + unicode_lowercase(t) + "]"@,
            base_name + " ["@ + t + "]"@,
        ),
        None => (base_id, base_name),
    };
    AffiliateView { id, name_base: pretty, name, registered, cost_pool_tag: tag }
}

/// A text with its first cost pool marker replaced by a space, and the tag.
pub open spec fn split_cost_pool(s: Seq<char>) -> (Seq<char>, Option<Seq<char>>) {
    match bracket_match(s) {
        Some((i, j)) => (
            s.subrange(0, i) + " "@ + s.subrange(j + 1, s.len() as int),
            Some(s.subrange(i + 1, j)),
        ),
        None => (s, None),
    }
}

/// The affiliate a text stands for: a cost pool marker `[tag]` and a
/// registered marker `(R)` may stand anywhere in it.
pub open spec fn affiliate_from_strep(s: Seq<char>) -> AffiliateView {
    let (base, tag) = split_cost_pool(s);
    let registered = has_registered_marker(base);
    let pretty = if registered {
        replace_registered_markers(base)
    } else {
        base
    };
    affiliate_from_parts(pretty, registered, tag)
}

fn clean_name_exec(s: &str) -> (r: String)
    ensures
        r@ == clean_name(s@),
{
    let collapsed = if regex_check_call(EXTRA_SPACE_PATTERN, false) {
        regex_replace_all_call(EXTRA_SPACE_PATTERN, s, " ")
    } else {
        s.to_owned()
    };
    trim(collapsed.as_str())
}

/// The data of an affiliate.
#[derive(Debug, Hash)]
struct AffiliateData {
    id: String,
    name_base: String,
    name: String,
    registered: bool,
    cost_pool_tag: Option<String>,
}

impl AffiliateData {
    spec fn view(&self) -> AffiliateView {
        AffiliateView {
            id: self.id@,
            name_base: self.name_base@,
            name: self.name@,
            registered: self.registered,
            cost_pool_tag: match self.cost_pool_tag {
                Some(t) => Some(t@),
                None => None,
            },
        }
    }

    fn from_base_name(name_base: &str, registered: bool) -> (r: AffiliateData)
        ensures
            r.view() == affiliate_from_parts(name_base@, registered, None),
    {
        AffiliateData::from_parts(name_base, registered, None)
    }

    fn from_parts(name_base: &str, registered: bool, cost_pool_tag: Option<&str>) -> (r:
        AffiliateData)
        ensures
            r.view() == affiliate_from_parts(
                name_base@,
                registered,
                match cost_pool_tag {
                    Some(t) => Some(t@),
                    None => None,
                },
            ),
    {
        let mut pretty_name = clean_name_exec(name_base);
        if pretty_name.as_str().is_empty() {
            pretty_name = "Default".to_owned();
        }
        let name_base_cleaned = pretty_name.clone();
        let mut base_id = to_lowercase(pretty_name.as_str());
        let mut base_name = pretty_name;
        if registered {
            base_id.append(" (R)");
            base_name.append(" (R)");
        }
        let tag: Option<String> = match cost_pool_tag {
            Some(t) => {
                let cleaned = clean_name_exec(t);
                if cleaned.as_str().is_empty() {
                    None
                } else {
                    Some(cleaned)
                }
            },
            None => None,
        };
        let (id, name) = match &tag {
            Some(t) => {
                let mut id = base_id;
                id.append(" [");
                let lower_tag = to_lowercase(t.as_str());
                id.append(lower_tag.as_str());
                id.append("]");
                let mut name = base_name;
                name.append(" [");
                name.append(t.as_str());
                name.append("]");
                (id, name)
            },
            None => (base_id, base_name),
        };
        AffiliateData { id, name_base: name_base_cleaned, name, registered, cost_pool_tag: tag }
    }

    fn from_strep(s: &str) -> (r: AffiliateData)
        ensures
            r.view() == affiliate_from_strep(s@),
    {
        let (base_strep, cost_pool_tag): (String, Option<String>) = if regex_check_call(
            COST_POOL_PATTERN,
            false,
        ) {
            match regex_captures_call(COST_POOL_PATTERN, false, s) {
                Some((before, groups, after)) => {
                    let tag = if groups.len() > 1 {
                        groups[1].clone()
                    } else {
                        None
                    };
                    let mut base = before;
                    base.append(" ");
                    base.append(after.as_str());
                    (base, tag)
                },
                None => (s.to_owned(), None),
            }
        } else {
            (s.to_owned(), None)
        };
        let registered = regex_check_call(REGISTERED_PATTERN, false) && regex_is_match_call(
            REGISTERED_PATTERN,
            false,
            base_strep.as_str(),
        );
        let pretty_name = if registered {
            regex_replace_all_call(REGISTERED_PATTERN, base_strep.as_str(), " ")
        } else {
            base_strep
        };
        match &cost_pool_tag {
            Some(t) => AffiliateData::from_parts(pretty_name.as_str(), registered, Some(t.as_str())),
            None => AffiliateData::from_parts(pretty_name.as_str(), registered, None),
        }
    }

    fn clone_data(&self) -> (r: AffiliateData)
        ensures
            r.view() == self.view(),
            r == *self,
    {
        AffiliateData {
            id: self.id.clone(),
            name_base: self.name_base.clone(),
            name: self.name.clone(),
            registered: self.registered,
            cost_pool_tag: match &self.cost_pool_tag {
                Some(t) => Some(t.clone()),
                None => None,
            },
        }
    }
}

/// A person or entity associated with transactions (you, a spouse, a
/// registered account, ...). `Default` is the reserved name of the primary
/// person; `__global__` stands for all affiliates at once.
///
/// An affiliate may carry a cost pool tag `[<tag>]`, which isolates its ACB
/// from the rest of its base affiliate's lots while sharing its base name.
///
/// Affiliates are identified by their id: two affiliates are equal when their
/// ids are, and hash by their id only.
#[derive(Debug)]
pub struct Affiliate {
    data: AffiliateData,
}

impl View for Affiliate {
    type V = AffiliateView;

    closed spec fn view(&self) -> AffiliateView {
        self.data.view()
    }
}

impl Affiliate {
    /// The affiliate a text stands for, such as "Spouse (R) [RSU 2024]".
    pub fn from_strep(s: &str) -> (r: Affiliate)
        ensures
            r@ == affiliate_from_strep(s@),
    {
        Affiliate { data: AffiliateData::from_strep(s) }
    }

    /// The affiliate with a base name (without markers) and registered status.
    pub fn from_base_name(name: &str, registered: bool) -> (r: Affiliate)
        ensures
            r@ == affiliate_from_parts(name@, registered, None),
    {
        Affiliate { data: AffiliateData::from_base_name(name, registered) }
    }

    /// What the `Default` affiliate is.
    pub open spec fn default_view() -> AffiliateView {
        affiliate_from_strep(""@)
    }

    /// The `Default` affiliate.
    pub fn default() -> (r: Affiliate)
        ensures
            r@ == affiliate_from_strep(""@),
            r@ == Affiliate::default_view(),
    {
        Affiliate::from_strep("")
    }

    /// The registered `Default (R)` affiliate.
    pub fn default_registered() -> (r: Affiliate)
        ensures
            r@ == affiliate_from_strep("(R)"@),
    {
        Affiliate::from_strep("(R)")
    }

    /// The global affiliate, which stands for all affiliates.
    pub fn global() -> (r: Affiliate)
        ensures
            r@ == affiliate_from_strep(GLOBAL_AF_ID@),
    {
        Affiliate::from_strep(GLOBAL_AF_ID)
    }

    pub fn id(&self) -> (r: &str)
        ensures
            r@ == self@.id,
    {
        self.data.id.as_str()
    }

    pub fn name(&self) -> (r: &str)
        ensures
            r@ == self@.name,
    {
        self.data.name.as_str()
    }

    /// The base name in lower case, shared by an affiliate, its registered
    /// variant's base and its cost pools.
    pub fn base_name_normalized(&self) -> (r: String)
        ensures
            r@ == unicode_lowercase(self@.name_base),
    {
        to_lowercase(self.data.name_base.as_str())
    }

    pub fn registered(&self) -> (r: bool)
        ensures
            r == self@.registered,
    {
        self.data.registered
    }

    /// The id starts with "default".
    pub fn is_default(&self) -> (r: bool)
        ensures
            r == starts_with_spec(self@.id, "default"@),
    {
        starts_with(self.data.id.as_str(), "default")
    }

    /// The global affiliate (id `__global__`).
    pub fn is_global(&self) -> (r: bool)
        ensures
            r == (self@.id == GLOBAL_AF_ID@),
    {
        str_eq(self.data.id.as_str(), GLOBAL_AF_ID)
    }

    pub fn cost_pool_tag(&self) -> (r: Option<&str>)
        ensures
            r is Some <==> self@.cost_pool_tag is Some,
            r is Some ==> r->0@ == self@.cost_pool_tag->0,
    {
        match &self.data.cost_pool_tag {
            Some(t) => Some(t.as_str()),
            None => None,
        }
    }

    pub fn is_cost_pool(&self) -> (r: bool)
        ensures
            r == self@.cost_pool_tag is Some,
    {
        self.data.cost_pool_tag.is_some()
    }

    /// The same base affiliate and registered status with the given cost pool
    /// tag (replacing any tag); an empty tag gives the plain affiliate.
    pub fn with_cost_pool_tag(&self, tag: &str) -> (r: Affiliate)
        ensures
            r@ == tagged_view(self@, tag@),
    {
        Affiliate {
            data: AffiliateData::from_parts(
                self.data.name_base.as_str(),
                self.data.registered,
                Some(tag),
            ),
        }
    }

    /// Whether both are the same affiliate (the same id).
    pub fn same_as(&self, other: &Affiliate) -> (r: bool)
        ensures
            r == (self@.id == other@.id),
    {
        self.data.id == other.data.id
    }
}

impl Clone for Affiliate {
    fn clone(&self) -> (r: Affiliate)
        ensures
            r@ == self@,
            r == *self,
    {
        Affiliate { data: self.data.clone_data() }
    }
}

impl PartialEq for Affiliate {
    fn eq(&self, other: &Affiliate) -> (r: bool) {
        self.same_as(other)
    }
}

impl vstd::std_specs::cmp::PartialEqSpecImpl for Affiliate {
    open spec fn obeys_eq_spec() -> bool {
        true
    }

    open spec fn eq_spec(&self, other: &Affiliate) -> bool {
        self@.id == other@.id
    }
}

impl Eq for Affiliate {
}


/// `String`'s `Hash::hash`: feeds the text to the hasher; nothing is claimed.
pub assume_specification<H: std::hash::Hasher>[<String as std::hash::Hash>::hash::<H>](
    s: &String,
    state: &mut H,
);

impl std::hash::Hash for Affiliate {
    fn hash<H: std::hash::Hasher>(&self, state: &mut H) {
        self.data.id.hash(state);
    }
}

/// What `with_cost_pool_tag` makes of an affiliate and a tag.
pub open spec fn tagged_view(a: AffiliateView, tag: Seq<char>) -> AffiliateView {
    affiliate_from_parts(a.name_base, a.registered, Some(tag))
}

/// The base name an affiliate built from `n` displays: `n` cleaned, or
/// `Default` where that leaves nothing.
pub open spec fn pretty_base(n: Seq<char>) -> Seq<char> {
    if clean_name(n).len() == 0 {
        default_display_name()
    } else {
        clean_name(n)
    }
}

proof fn lemma_clean_default()
    ensures
        clean_name(default_display_name()) == default_display_name(),
{
    reveal_strlit("Default");
    let d = default_display_name();
    assert(d =~= seq!['D', 'e', 'f', 'a', 'u', 'l', 't']);
    assert forall|i: int, j: int| 0 <= i && j == i + 1 && j < d.len() implies !(#[trigger] d[i]
        == ' ' && #[trigger] d[j] == ' ') by {}
    lemma_collapse_keeps(d);
    assert(trim_start_spec(d) == d);
    assert(trim_end_spec(d) == d);
}

/// A base name, once cleaned, cleans to itself.
proof fn lemma_pretty_base_twice(n: Seq<char>)
    ensures
        pretty_base(pretty_base(n)) == pretty_base(n),
        affiliate_from_parts(n, false, None).name_base == pretty_base(n),
{
    lemma_collapse_trim_twice(n);
    lemma_clean_default();
}

/// A cost pool tag replaces the tag an affiliate had and is never nested in
/// it: for every affiliate `a` (every constructor builds one from a base
/// name, a registered status and a tag), tagging `a` with `t` and then `u`
/// gives `a` tagged with `u`. Tagging keeps the registered status and the
/// base name, and a tag that trims to nothing gives the plain affiliate, the
/// same as the empty tag, which is no cost pool.
pub proof fn law_cost_pool_tag_replaces(
    n: Seq<char>,
    r: bool,
    t0: Option<Seq<char>>,
    a: AffiliateView,
    t: Seq<char>,
    u: Seq<char>,
)
    requires
        a == affiliate_from_parts(n, r, t0),
    ensures
        tagged_view(tagged_view(a, t), u) == tagged_view(a, u),
        tagged_view(a, t).registered == a.registered,
        tagged_view(a, t).name_base == a.name_base,
        unicode_lowercase(tagged_view(a, t).name_base) == unicode_lowercase(a.name_base),
        tagged_view(tagged_view(a, t), u).cost_pool_tag == if clean_name(u).len() == 0 {
            None::<Seq<char>>
        } else {
            Some(clean_name(u))
        },
        trim_spec(t).len() == 0 ==> tagged_view(a, t).cost_pool_tag is None && tagged_view(a, t)
            == tagged_view(a, ""@),
{
    lemma_pretty_base_twice(n);
    if trim_spec(t).len() == 0 {
        lemma_trim_empty(t);
        lemma_collapse_trim_all_whitespace(t);
        reveal_strlit("");
        assert(""@ =~= Seq::<char>::empty());
        lemma_trim_empty(""@);
        assert(collapse_spaces(""@) == ""@);
    }
}

/// No character of the text is `c`.
pub open spec fn lacks_char(s: Seq<char>, c: char) -> bool {
    forall|i: int| 0 <= i < s.len() ==> #[trigger] s[i] != c
}

/// A cleaned base name is not empty, has no two spaces in a row, and neither
/// starts nor ends with whitespace.
proof fn lemma_pretty_base_clean(n: Seq<char>)
    ensures
        pretty_base(n).len() > 0,
        no_double_space(pretty_base(n)),
        !is_unicode_whitespace(pretty_base(n)[0]),
        !is_unicode_whitespace(pretty_base(n).last()),
{
    let c = collapse_spaces(n);
    if clean_name(n).len() > 0 {
        lemma_collapse_no_double(n);
        let a = lemma_trim_props(c);
        crate::util::text::lemma_no_double_subrange(c, a, a + trim_spec(c).len());
    } else {
        reveal_strlit("Default");
        let d = default_display_name();
        assert(d =~= seq!['D', 'e', 'f', 'a', 'u', 'l', 't']);
        assert forall|i: int, j: int| 0 <= i && j == i + 1 && j < d.len() implies !(#[trigger] d[i]
            == ' ' && #[trigger] d[j] == ' ') by {}
    }
}

/// A clean name followed by spaces cleans to the name.
proof fn lemma_clean_name_with_spaces(b: Seq<char>, m: nat)
    requires
        b.len() > 0,
        no_double_space(b),
        !is_unicode_whitespace(b[0]),
        !is_unicode_whitespace(b.last()),
    ensures
        clean_name(b + spaces(m)) == b,
{
    lemma_collapse_trailing_spaces(b, m);
    assert(trim_end_spec(b) == b);
    if m == 0 {
        assert(trim_start_spec(b) == b);
    } else {
        let t = b.push(' ');
        assert(t[0] == b[0]);
        assert(trim_start_spec(t) == t);
        assert(t.drop_last() =~= b);
        assert(trim_end_spec(t) == trim_end_spec(b));
    }
}

/// A base name without markers, then spaces, has no registered marker.
proof fn lemma_no_marker_with_spaces(b: Seq<char>, m: nat)
    requires
        !has_registered_marker(b),
    ensures
        !has_registered_marker(b + spaces(m)),
{
    let t = b + spaces(m);
    assert forall|p: int| !#[trigger] registered_marker_at(t, p) by {
        if registered_marker_at(t, p) {
            if p + 3 <= b.len() {
                assert(registered_marker_at(b, p));
            } else {
                assert(t[p + 2] == ' ');
            }
        }
    }
}

/// Replacing the markers of a name, " (R)" and spaces leaves the name and
/// spaces.
proof fn lemma_replace_registered_suffix(b: Seq<char>, k: nat)
    requires
        !has_registered_marker(b),
    ensures
        replace_registered_markers(b + registered_suffix() + spaces(k)) == b + spaces(k + 2),
{
    reveal_strlit(" (R)");
    let rs = registered_suffix();
    assert(rs =~= seq![' ', '(', 'R', ')']);
    let y = rs + spaces(k);
    let t = b + y;
    assert(b + rs + spaces(k) =~= t);
    assert forall|p: int| 0 <= p < b.len() implies !#[trigger] registered_marker_at(b + y, p) by {
        if registered_marker_at(b + y, p) {
            if p + 3 <= b.len() {
                assert(registered_marker_at(b, p));
            } else if p == b.len() - 1 {
                assert((b + y)[p + 1] == ' ');
            } else {
                assert((b + y)[p + 2] == ' ');
            }
        }
    }
    lemma_replace_markers_prefix(b, y);
    let y1 = seq!['(', 'R', ')'] + spaces(k);
    assert(y =~= seq![' '] + y1);
    assert(!registered_marker_at(seq![' '] + y1, 0));
    lemma_replace_markers_prefix(seq![' '], y1);
    assert(registered_marker_at(y1, 0));
    assert(y1.skip(3) =~= spaces(k));
    let e = Seq::<char>::empty();
    assert forall|p: int| 0 <= p < spaces(k).len() implies !#[trigger] registered_marker_at(
        spaces(k) + e,
        p,
    ) by {
        assert((spaces(k) + e)[p] == ' ');
    }
    lemma_replace_markers_prefix(spaces(k), e);
    assert(spaces(k) + e =~= spaces(k));
    assert(replace_registered_markers(e) == e);
    assert(b + (seq![' '] + (seq![' '] + (spaces(k) + e))) =~= b + spaces(k + 2));
}

/// An affiliate's name reads back as the same affiliate: `from_strep` of
/// `name()` gives the affiliate again, for every affiliate whose base name
/// holds no `[`, `]` or registered marker `(r)`/`(R)` and whose cost pool
/// tag holds no `]` (the name is the base name, then " (R)" if registered,
/// then " [tag]" for a cost pool).
pub proof fn law_name_reads_back(n: Seq<char>, r: bool, t0: Option<Seq<char>>, a: AffiliateView)
    requires
        a == affiliate_from_parts(n, r, t0),
        lacks_char(a.name_base, '['),
        lacks_char(a.name_base, ']'),
        !has_registered_marker(a.name_base),
        a.cost_pool_tag matches Some(tg) ==> lacks_char(tg, ']'),
    ensures
        affiliate_from_strep(a.name) == a,
{
    reveal_strlit(" (R)");
    reveal_strlit(" [");
    reveal_strlit("]");
    let b = a.name_base;
    lemma_pretty_base_clean(n);
    assert(b == pretty_base(n));
    let rs = registered_suffix();
    assert(rs =~= seq![' ', '(', 'R', ')']);
    let base_name = if r {
        b + rs
    } else {
        b
    };
    assert(lacks_char(base_name, '[') && lacks_char(base_name, ']')) by {
        assert forall|i: int| 0 <= i < base_name.len() implies #[trigger] base_name[i] != '['
            && base_name[i] != ']' by {
            if i < b.len() {
                assert(base_name[i] == b[i]);
            }
        }
    }
    let name = a.name;
    // The cost pool marker, and what is left around it.
    let k: nat = if a.cost_pool_tag is Some {
        2
    } else {
        0
    };
    match a.cost_pool_tag {
        Some(tg) => {
            assert(name == base_name + " ["@ + tg + "]"@);
            let i: int = base_name.len() + 1int;
            let j: int = name.len() - 1;
            assert(name[i] == '[');
            assert forall|m: int| 0 <= m < i implies #[trigger] name[m] != '[' by {
                if m < base_name.len() {
                    assert(name[m] == base_name[m]);
                }
            }
            lemma_first_index_found(name, '[', 0, i);
            assert(name[j] == ']');
            assert forall|m: int| i + 1 <= m < j implies #[trigger] name[m] != ']' by {
                assert(name[m] == tg[m - i - 1]);
            }
            lemma_first_index_found(name, ']', i + 1, j);
            reveal_strlit(" ");
            assert(" "@ =~= seq![' ']);
            assert(name.subrange(0, i) =~= base_name.push(' '));
            assert(name.subrange(j + 1, name.len() as int) =~= Seq::<char>::empty());
            assert(name.subrange(0, i) + " "@ + name.subrange(j + 1, name.len() as int)
                =~= base_name + spaces(2));
            assert(name.subrange(i + 1, j) =~= tg);
            // The tag was cleaned already.
            let t = t0->0;
            lemma_collapse_trim_twice(t);
        },
        None => {
            assert(name == base_name);
            assert forall|m: int| 0 <= m < name.len() implies #[trigger] name[m] != '[' by {}
            lemma_first_index_none(name, '[', 0);
            assert(base_name + spaces(0) =~= base_name);
        },
    }
    // The registered marker.
    if r {
        assert(registered_marker_at(base_name + spaces(k), b.len() + 1int));
        lemma_replace_registered_suffix(b, k);
        lemma_clean_name_with_spaces(b, k + 2);
    } else {
        lemma_no_marker_with_spaces(b, k);
        lemma_clean_name_with_spaces(b, k);
    }
}

/// Affiliates built from the same base name, registered or not, with or
/// without a cost pool tag, share that base name, and so its normalized
/// (lower case) form, which `base_name_normalized` gives
/// (`law_cost_pool_tag_replaces` says the same of tagging an affiliate).
pub proof fn law_base_name_shared(
    n: Seq<char>,
    r1: bool,
    r2: bool,
    t1: Option<Seq<char>>,
    t2: Option<Seq<char>>,
)
    ensures
        affiliate_from_parts(n, r1, t1).name_base == affiliate_from_parts(n, r2, t2).name_base,
        unicode_lowercase(affiliate_from_parts(n, r1, t1).name_base) == unicode_lowercase(
            affiliate_from_parts(n, r2, t2).name_base,
        ),
{
}

/// No id occurs twice among the affiliates.
pub open spec fn ids_unique(t: Seq<AffiliateView>) -> bool {
    forall|i: int, j: int| 0 <= i < j < t.len() ==> (#[trigger] t[i]).id != (#[trigger] t[j]).id
}

/// Deduplicating `af` against the affiliates held: the table after, and the
/// affiliate handed out (the one held with the same id, else `af`, now held).
pub open spec fn dedup_spec(t: Seq<AffiliateView>, af: AffiliateView) -> (
    Seq<AffiliateView>,
    AffiliateView,
) {
    if exists|i: int| 0 <= i < t.len() && t[i].id == af.id {
        (t, t[choose|i: int| 0 <= i < t.len() && t[i].id == af.id])
    } else {
        (t.push(af), af)
    }
}

/// Deduplication hands out, for every id, the affiliate first seen with it:
/// deduplicating a second affiliate with the same id leaves the table as it
/// was and hands out the same affiliate as the first time.
pub proof fn law_dedup_keeps_first(t: Seq<AffiliateView>, a: AffiliateView, b: AffiliateView)
    requires
        ids_unique(t),
        a.id == b.id,
    ensures
        ids_unique(dedup_spec(t, a).0),
        dedup_spec(dedup_spec(t, a).0, b).0 == dedup_spec(t, a).0,
        dedup_spec(dedup_spec(t, a).0, b).1 == dedup_spec(t, a).1,
{
    let t1 = dedup_spec(t, a).0;
    if exists|i: int| 0 <= i < t.len() && t[i].id == a.id {
        let i = choose|i: int| 0 <= i < t.len() && t[i].id == a.id;
        assert(t1 == t);
        assert(t1[i].id == b.id);
        let j = choose|j: int| 0 <= j < t1.len() && t1[j].id == b.id;
        if i != j {
            if i < j {
                assert(t[i].id != t[j].id);
            } else {
                assert(t[j].id != t[i].id);
            }
        }
    } else {
        assert(t1 == t.push(a));
        assert(t1[t.len() as int].id == b.id);
        let j = choose|j: int| 0 <= j < t1.len() && t1[j].id == b.id;
        if j < t.len() {
            assert(t[j].id == a.id);
        }
        assert forall|x: int, y: int| 0 <= x < y < t1.len() implies (#[trigger] t1[x]).id
            != (#[trigger] t1[y]).id by {
            if y < t.len() {
                assert(t[x].id != t[y].id);
            } else {
                assert(t[x].id != a.id);
            }
        }
    }
}

/// Deduplicates affiliates by id: the first affiliate seen with an id is the
/// one handed out for it from then on.
pub struct AffiliateDedupTable {
    afs: Vec<Affiliate>,
}

impl AffiliateDedupTable {
    /// The affiliates held, in the order first seen.
    pub closed spec fn view(&self) -> Seq<AffiliateView> {
        self.afs@.map_values(|a: Affiliate| a@)
    }

    /// No id is held twice.
    pub open spec fn wf(&self) -> bool {
        ids_unique(self@)
    }

    pub fn new() -> (r: AffiliateDedupTable)
        ensures
            r@ == Seq::<AffiliateView>::empty(),
            r.wf(),
    {
        let r = AffiliateDedupTable { afs: Vec::new() };
        assert(r@ =~= Seq::<AffiliateView>::empty());
        r
    }

    fn find(&self, id: &str) -> (r: Option<usize>)
        ensures
            r is Some ==> r->0 < self@.len() && self@[r->0 as int].id == id@,
            r is None ==> forall|i: int| 0 <= i < self@.len() ==> self@[i].id != id@,
    {
        let mut i: usize = 0;
        while i < self.afs.len()
            invariant
                i <= self.afs@.len(),
                self@ == self.afs@.map_values(|a: Affiliate| a@),
                forall|j: int| 0 <= j < i ==> self@[j].id != id@,
            decreases self.afs@.len() - i,
        {
            if str_eq(self.afs[i].id(), id) {
                return Some(i);
            }
            i += 1;
        }
        None
    }

    /// The held affiliate with the same id as `af`, or `af` itself, now held,
    /// where none is.
    fn deduped_affiliate_from_afd(&mut self, af: Affiliate) -> (r: Affiliate)
        requires
            old(self).wf(),
        ensures
            final(self).wf(),
            (final(self)@, r@) == dedup_spec(old(self)@, af@),
            r@.id == af@.id,
            (exists|i: int| 0 <= i < old(self)@.len() && old(self)@[i].id == af@.id) ==> {
                &&& final(self)@ == old(self)@
                &&& exists|i: int|
                    0 <= i < old(self)@.len() && old(self)@[i].id == af@.id && r@ == old(self)@[i]
            },
            (forall|i: int| 0 <= i < old(self)@.len() ==> old(self)@[i].id != af@.id) ==> {
                &&& final(self)@ == old(self)@.push(af@)
                &&& r@ == af@
            },
    {
        match self.find(af.id()) {
            Some(i) => self.afs[i].clone(),
            None => {
                let ghost old_view = self@;
                let keep = af.clone();
                self.afs.push(af);
                assert(self@ =~= old_view.push(keep@));
                keep
            },
        }
    }

    /// The held affiliate for a text (see `Affiliate::from_strep`), adding it
    /// where its id is new.
    pub fn deduped_affiliate(&mut self, strep: &str) -> (r: Affiliate)
        requires
            old(self).wf(),
        ensures
            final(self).wf(),
            (final(self)@, r@) == dedup_spec(old(self)@, affiliate_from_strep(strep@)),
            r@.id == affiliate_from_strep(strep@).id,
            (exists|i: int|
                0 <= i < old(self)@.len() && old(self)@[i].id == affiliate_from_strep(strep@).id)
                ==> {
                &&& final(self)@ == old(self)@
                &&& exists|i: int|
                    0 <= i < old(self)@.len() && old(self)@[i].id == affiliate_from_strep(
                        strep@,
                    ).id && r@ == old(self)@[i]
            },
            (forall|i: int|
                0 <= i < old(self)@.len() ==> old(self)@[i].id != affiliate_from_strep(strep@).id)
                ==> {
                &&& final(self)@ == old(self)@.push(affiliate_from_strep(strep@))
                &&& r@ == affiliate_from_strep(strep@)
            },
    {
        let af = Affiliate::from_strep(strep);
        self.deduped_affiliate_from_afd(af)
    }

    /// The held affiliate with id `id`, which must be held.
    pub fn must_get(&self, id: &str) -> (r: &Affiliate)
        requires
            exists|i: int| 0 <= i < self@.len() && self@[i].id == id@,
        ensures
            r@.id == id@,
            exists|i: int| 0 <= i < self@.len() && self@[i] == r@,
    {
        match self.find(id) {
            Some(i) => &self.afs[i],
            None => {
                assert(false);
                &self.afs[0]
            },
        }
    }

    /// The held `default` affiliate, which must be held.
    pub fn get_default_affiliate(&self) -> (r: &Affiliate)
        requires
            exists|i: int| 0 <= i < self@.len() && self@[i].id == "default"@,
        ensures
            r@.id == "default"@,
            exists|i: int| 0 <= i < self@.len() && self@[i] == r@,
    {
        self.must_get("default")
    }
}

/// A base affiliate and its registered variant.
#[derive(Clone, Debug, PartialEq, Eq)]
pub struct AffiliateFilter {
    pub non_registered: Affiliate,
    pub registered: Affiliate,
}

impl AffiliateFilter {
    pub fn new(non_registered_name: &str) -> (r: AffiliateFilter)
        ensures
            r.non_registered@ == affiliate_from_parts(non_registered_name@, false, None),
            r.registered@ == affiliate_from_parts(non_registered_name@, true, None),
    {
        let non_registered = Affiliate::from_base_name(non_registered_name, false);
        let registered = Affiliate::from_base_name(non_registered_name, true);
        AffiliateFilter { non_registered, registered }
    }

    /// The two affiliates, the non-registered one first.
    pub fn affiliates(&self) -> (r: Vec<Affiliate>)
        ensures
            r@.len() == 2,
            r@[0]@ == self.non_registered@,
            r@[1]@ == self.registered@,
    {
        let mut v = Vec::new();
        v.push(self.non_registered.clone());
        v.push(self.registered.clone());
        v
    }

    /// Whether `af` is one of the two.
    pub fn matches(&self, af: &Affiliate) -> (r: bool)
        ensures
            r == (af@.id == self.non_registered@.id || af@.id == self.registered@.id),
    {
        af.same_as(&self.non_registered) || af.same_as(&self.registered)
    }
}

} // verus!
