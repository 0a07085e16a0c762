use vstd::prelude::*;
use vstd::string::*;
use crate::registry::Collection;
use crate::text::{camelcase_to_snakecase, join_spec, joiner, parts_of, path_parts, snake_of};

verus! {

/// A field reference that names a fixed target: from `source` (any source when
/// `None`), the reference `reference` means `target`.
#[derive(Debug)]
pub struct Link {
    pub source: Option<String>,
    pub reference: String,
    pub target: String,
}

/// A field reference of `source` that names a type outside the registry on purpose.
#[derive(Debug)]
pub struct Skip {
    pub source: String,
    pub reference: String,
}

/// The fixed part of resolution: the domain folder of the domain-prefix rules, the
/// named links and the references left without an edge.
#[derive(Debug)]
pub struct Exceptions {
    pub domain: String,
    pub links: Vec<Link>,
    pub skips: Vec<Skip>,
}

/// Outcome of resolving one field reference.
#[derive(Debug)]
pub enum Resolution {
    /// The reference names this registry identifier.
    Target(String),
    /// The reference is known to name nothing in the registry.
    NoEdge,
    /// No rule applies.
    Unresolved,
}

pub open spec fn opt_view(o: Option<String>) -> Option<Seq<char>> {
    match o {
        Some(s) => Some(s@),
        None => None,
    }
}

/// `join(join(a, b, "/"), c, "::")`
pub open spec fn module_join(a: Seq<char>, b: Seq<char>, c: Seq<char>) -> Seq<char> {
    join_spec(join_spec(a, b, "/"@), c, "::"@)
}

/// The candidates of the naming rules, in priority order; `None` where a rule does
/// not apply to the shape of the reference.
pub open spec fn heuristic_candidates(
    source: Seq<char>,
    field: Seq<char>,
    domain: Seq<char>,
) -> Seq<Option<Seq<char>>> {
    let (ss, sm, _sl) = parts_of(source);
    let (fs, fm, fl) = parts_of(field);
    let fprefix = join_spec(fs, fm, "/"@);
    let fobject = join_spec(fm, fl, "::"@);
    let sprefix = join_spec(ss, sm, "/"@);
    let simple = fprefix.len() == 0;
    let relative = fs.len() == 0;
    let snake = snake_of(fl);
    seq![
        // exact
        Some(field),
        // same namespace
        if simple { Some(join_spec(sprefix, fl, "::"@)) } else { None },
        // relative and shortened
        if relative { Some(module_join(fprefix, snake, fl)) } else { None },
        // sub-module
        if simple { Some(module_join(sprefix, snake, fl)) } else { None },
        // super-module
        if simple { Some(module_join(ss, snake, fl)) } else { None },
        // domain prefix, namespaced
        if relative { Some(join_spec(domain, fobject, "/"@)) } else { None },
        // domain prefix, bare
        if simple { Some(module_join(domain, snake, fl)) } else { None },
    ]
}

/// Whether a named link applies to `field` of `source`.
pub open spec fn link_applies(l: Link, source: Seq<char>, field: Seq<char>) -> bool {
    (l.source is None || opt_view(l.source) == Some(source)) && l.reference@ == field
}

/// The candidates of the named links, in table order.
pub open spec fn link_candidates(links: Seq<Link>, source: Seq<char>, field: Seq<char>) -> Seq<
    Option<Seq<char>>,
> {
    links.map_values(
        |l: Link|
            if link_applies(l, source, field) {
                Some(l.target@)
            } else {
                None
            },
    )
}

/// All candidates, in priority order.
pub open spec fn candidates(ex: Exceptions, source: Seq<char>, field: Seq<char>) -> Seq<
    Option<Seq<char>>,
> {
    heuristic_candidates(source, field, ex.domain@) + link_candidates(ex.links@, source, field)
}

/// The first candidate that is a key of `m`.
pub open spec fn first_present<V>(cands: Seq<Option<Seq<char>>>, m: Map<Seq<char>, V>) -> Option<
    Seq<char>,
>
    decreases cands.len(),
{
    if cands.len() == 0 {
        None
    } else {
        match cands[0] {
            Some(c) if m.contains_key(c) => Some(c),
            _ => first_present(cands.drop_first(), m),
        }
    }
}

/// Whether `field` of `source` is listed as leading to no edge.
pub open spec fn is_skipped(skips: Seq<Skip>, source: Seq<char>, field: Seq<char>) -> bool {
    exists|i: int| 0 <= i < skips.len() && skips[i].source@ == source && skips[i].reference@ == field
}

pub open spec fn opt_views(v: Seq<Option<String>>) -> Seq<Option<Seq<char>>> {
    v.map_values(|o: Option<String>| opt_view(o))
}

/// `join(join(a, b, "/"), c, "::")`
fn module_joiner(a: &str, b: &str, c: &str) -> (r: String)
    ensures
        r@ == module_join(a@, b@, c@),
{
    let ab = joiner(a, b, "/");
    joiner(ab.as_str(), c, "::")
}

/// The candidates of the naming rules for `field` of `source`.
fn heuristic_list(source: &str, field: &str, domain: &str) -> (r: Vec<Option<String>>)
    ensures
        opt_views(r@) == heuristic_candidates(source@, field@, domain@),
{
    let (ss, sm, _sl) = path_parts(source);
    let (fs, fm, fl) = path_parts(field);
    let fprefix = joiner(fs.as_str(), fm.as_str(), "/");
    let fobject = joiner(fm.as_str(), fl.as_str(), "::");
    let sprefix = joiner(ss.as_str(), sm.as_str(), "/");
    let simple = fprefix.unicode_len() == 0;
    let relative = fs.unicode_len() == 0;
    let snake = camelcase_to_snakecase(fl.as_str());
    let mut r: Vec<Option<String>> = Vec::new();
    r.push(Some(field.to_owned()));
    r.push(if simple { Some(joiner(sprefix.as_str(), fl.as_str(), "::")) } else { None });
    r.push(if relative { Some(module_joiner(fprefix.as_str(), snake.as_str(), fl.as_str())) } else { None });
    r.push(if simple { Some(module_joiner(sprefix.as_str(), snake.as_str(), fl.as_str())) } else { None });
    r.push(if simple { Some(module_joiner(ss.as_str(), snake.as_str(), fl.as_str())) } else { None });
    r.push(if relative { Some(joiner(domain, fobject.as_str(), "/")) } else { None });
    r.push(if simple { Some(module_joiner(domain, snake.as_str(), fl.as_str())) } else { None });
    assert(opt_views(r@) =~= heuristic_candidates(source@, field@, domain@));
    r
}

/// Whether the link applies to `field` of `source`.
fn link_matches(l: &Link, source: &String, field: &String) -> (r: bool)
    ensures
        r == link_applies(*l, source@, field@),
{
    let source_ok = match &l.source {
        None => true,
        Some(s) => *s == *source,
    };
    source_ok && l.reference == *field
}

/// The candidates of all rules for `field` of `source`, in priority order.
fn candidate_list(ex: &Exceptions, source: &str, field: &str) -> (r: Vec<Option<String>>)
    ensures
        opt_views(r@) == candidates(*ex, source@, field@),
{
    let mut r = heuristic_list(source, field, ex.domain.as_str());
    let ghost h = opt_views(r@);
    let src = source.to_owned();
    let fld = field.to_owned();
    let mut i: usize = 0;
    while i < ex.links.len()
        invariant
            i <= ex.links@.len(),
            src@ == source@,
            fld@ == field@,
            opt_views(r@) == h + link_candidates(ex.links@.subrange(0, i as int), source@, field@),
        decreases ex.links@.len() - i,
    {
        let l = &ex.links[i];
        let c = if link_matches(l, &src, &fld) { Some(l.target.clone()) } else { None };
        let ghost prev = r@;
        r.push(c);
        assert(opt_views(r@) =~= opt_views(prev).push(opt_view(c)));
        assert(link_candidates(ex.links@.subrange(0, i + 1), source@, field@) =~= link_candidates(
            ex.links@.subrange(0, i as int),
            source@,
            field@,
        ).push(opt_view(c)));
        assert(opt_views(r@) =~= h + link_candidates(ex.links@.subrange(0, i + 1), source@, field@));
        i = i + 1;
    }
    assert(ex.links@.subrange(0, ex.links@.len() as int) =~= ex.links@);
    r
}

/// The first candidate with a record.
fn first_present_in(cands: &Vec<Option<String>>, reg: &Collection) -> (r: Option<String>)
    requires
        reg.wf(),
    ensures
        opt_view(r) == first_present(opt_views(cands@), reg@),
{
    let ghost all = opt_views(cands@);
    let mut i: usize = 0;
    assert(all.subrange(0, all.len() as int) =~= all);
    while i < cands.len()
        invariant
            reg.wf(),
            i <= cands@.len(),
            all == opt_views(cands@),
            first_present(all, reg@) == first_present(all.subrange(i as int, all.len() as int), reg@),
        decreases cands@.len() - i,
    {
        let ghost rest = all.subrange(i as int, all.len() as int);
        assert(rest.drop_first() =~= all.subrange(i + 1, all.len() as int));
        match &cands[i] {
            Some(c) => {
                if reg.contains_key(c.as_str()) {
                    return Some(c.clone());
                }
            },
            None => {},
        }
        i = i + 1;
    }
    assert(all.subrange(i as int, all.len() as int) =~= Seq::<Option<Seq<char>>>::empty());
    None
}

/// Whether `field` of `source` is listed as leading to no edge.
fn skip_listed(skips: &Vec<Skip>, source: &String, field: &String) -> (r: bool)
    ensures
        r == is_skipped(skips@, source@, field@),
{
    let mut i: usize = 0;
    while i < skips.len()
        invariant
            i <= skips@.len(),
            forall|j: int| 0 <= j < i ==> !(skips@[j].source@ == source@ && skips@[j].reference@ == field@),
        decreases skips@.len() - i,
    {
        if skips[i].source == *source && skips[i].reference == *field {
            return true;
        }
        i = i + 1;
    }
    false
}

/// Resolves `field`, a type reference of a field of `source`, against the registry: the
/// first rule in priority order whose candidate has a record gives the target; failing
/// that, a listed reference gives no edge; anything else is unresolved.
pub fn resolve(reg: &Collection, ex: &Exceptions, source: &str, field: &str) -> (r: Resolution)
    requires
        reg.wf(),
    ensures
        ({
            let hit = first_present(candidates(*ex, source@, field@), reg@);
            match r {
                Resolution::Target(t) => hit == Some(t@),
                Resolution::NoEdge => hit is None && is_skipped(ex.skips@, source@, field@),
                Resolution::Unresolved => hit is None && !is_skipped(ex.skips@, source@, field@),
            }
        }),
{
    let cands = candidate_list(ex, source, field);
    match first_present_in(&cands, reg) {
        Some(t) => Resolution::Target(t),
        None => {
            if skip_listed(&ex.skips, &source.to_owned(), &field.to_owned()) {
                Resolution::NoEdge
            } else {
                Resolution::Unresolved
            }
        },
    }
}

pub open spec fn link_view(l: Link) -> (Option<Seq<char>>, Seq<char>, Seq<char>) {
    (opt_view(l.source), l.reference@, l.target@)
}

pub open spec fn skip_view(k: Skip) -> (Seq<char>, Seq<char>) {
    (k.source@, k.reference@)
}

/// The named links of the standard table.
pub open spec fn standard_links() -> Seq<(Option<Seq<char>>, Seq<char>, Seq<char>)> {
    seq![
        (Some("node/info::Info"@), "Channels"@, "channel::Channels"@),
        (Some("block/id::Id"@), "PartSetHeader"@, "block/parts::Header"@),
        (Some("vote/canonical_vote::CanonicalVote"@), "super::Type"@, "vote::Type"@),
        (None, "ChainId"@, "chain/id::Id"@),
        (None, "Height"@, "block/height::Height"@),
        (None, "Round"@, "block/round::Round"@),
        (None, "BlockId"@, "block/id::Id"@),
        (None, "SignedHeader"@, "block/signed_header::SignedHeader"@),
    ]
}

/// The references of the standard table that lead to no edge: foreign types with
/// serialization of their own, or none.
pub open spec fn standard_skips() -> Seq<(Seq<char>, Seq<char>)> {
    seq![
        ("genesis::Genesis"@, "AppState"@),
        ("private_key::PrivateKey"@, "Ed25519"@),
        ("public_key::PublicKey"@, "Ed25519"@),
        ("public_key::PublicKey"@, "Secp256k1"@),
        ("timeout::Timeout"@, "Duration"@),
        ("time::Time"@, "Utc"@),
        ("time::Time"@, "DateTime"@),
        ("proposal/sign_proposal::SignedProposalResponse"@, "RemoteSignerError"@),
        ("vote/sign_vote::SignedVoteResponse"@, "RemoteSignerError"@),
        ("public_key/pub_key_response::PubKeyResponse"@, "RemoteSignerError"@),
        ("signature::Signature"@, "Ed25519Signature"@),
        ("validator::SimpleValidator"@, "tendermint_proto::crypto::PublicKey"@),
    ]
}

fn link(source: Option<&str>, reference: &str, target: &str) -> (r: Link)
    ensures
        link_view(r) == (
            match source {
                Some(s) => Some(s@),
                None => None::<Seq<char>>,
            },
            reference@,
            target@,
        ),
{
    let source = match source {
        Some(s) => Some(s.to_owned()),
        None => None,
    };
    Link { source, reference: reference.to_owned(), target: target.to_owned() }
}

fn skip(source: &str, reference: &str) -> (r: Skip)
    ensures
        skip_view(r) == (source@, reference@),
{
    Skip { source: source.to_owned(), reference: reference.to_owned() }
}

impl Exceptions {
    /// No domain folder, no links, no skips.
    pub fn empty() -> (r: Self)
        ensures
            r.domain@ == Seq::<char>::empty(),
            r.links@.len() == 0,
            r.skips@.len() == 0,
    {
        Exceptions { domain: String::new(), links: Vec::new(), skips: Vec::new() }
    }

    /// The tables for the Tendermint sources: domain folder `abci`, with the standard
    /// links and skips.
    pub fn standard() -> (r: Self)
        ensures
            r.domain@ == "abci"@,
            r.links@.map_values(|l: Link| link_view(l)) == standard_links(),
            r.skips@.map_values(|k: Skip| skip_view(k)) == standard_skips(),
    {
        let mut links: Vec<Link> = Vec::new();
        links.push(link(Some("node/info::Info"), "Channels", "channel::Channels"));
        links.push(link(Some("block/id::Id"), "PartSetHeader", "block/parts::Header"));
        links.push(link(Some("vote/canonical_vote::CanonicalVote"), "super::Type", "vote::Type"));
        links.push(link(None, "ChainId", "chain/id::Id"));
        links.push(link(None, "Height", "block/height::Height"));
        links.push(link(None, "Round", "block/round::Round"));
        links.push(link(None, "BlockId", "block/id::Id"));
        links.push(link(None, "SignedHeader", "block/signed_header::SignedHeader"));
        let mut skips: Vec<Skip> = Vec::new();
        skips.push(skip("genesis::Genesis", "AppState"));
        skips.push(skip("private_key::PrivateKey", "Ed25519"));
        skips.push(skip("public_key::PublicKey", "Ed25519"));
        skips.push(skip("public_key::PublicKey", "Secp256k1"));
        skips.push(skip("timeout::Timeout", "Duration"));
        skips.push(skip("time::Time", "Utc"));
        skips.push(skip("time::Time", "DateTime"));
        skips.push(skip("proposal/sign_proposal::SignedProposalResponse", "RemoteSignerError"));
        skips.push(skip("vote/sign_vote::SignedVoteResponse", "RemoteSignerError"));
        skips.push(skip("public_key/pub_key_response::PubKeyResponse", "RemoteSignerError"));
        skips.push(skip("signature::Signature", "Ed25519Signature"));
        skips.push(skip("validator::SimpleValidator", "tendermint_proto::crypto::PublicKey"));
        assert(links@.map_values(|l: Link| link_view(l)) =~= standard_links());
        assert(skips@.map_values(|k: Skip| skip_view(k)) =~= standard_skips());
        Exceptions { domain: String::from_str("abci"), links, skips }
    }
}

/// The earliest candidate with a record wins over every later one.
pub proof fn lemma_earliest_candidate_wins<V>(cands: Seq<Option<Seq<char>>>, m: Map<Seq<char>, V>, i: int)
    requires
        0 <= i < cands.len(),
        cands[i] is Some,
        m.contains_key(cands[i]->0),
        forall|j: int| 0 <= j < i ==> !(#[trigger] cands[j] is Some && m.contains_key(cands[j]->0)),
    ensures
        first_present(cands, m) == cands[i],
    decreases i,
{
    if i > 0 {
        assert(!(cands[0] is Some && m.contains_key(cands[0]->0)));
        assert forall|j: int| 0 <= j < i - 1 implies !(#[trigger] cands.drop_first()[j] is Some
            && m.contains_key(cands.drop_first()[j]->0)) by {
            assert(cands.drop_first()[j] == cands[j + 1]);
        }
        lemma_earliest_candidate_wins(cands.drop_first(), m, i - 1);
    }
}

/// A reference that is itself a registry key resolves to itself, whatever later rule
/// would also match.
pub proof fn lemma_exact_match_first<V>(ex: Exceptions, m: Map<Seq<char>, V>, source: Seq<char>, field: Seq<char>)
    requires
        m.contains_key(field),
    ensures
        first_present(candidates(ex, source, field), m) == Some(field),
{
    let c = candidates(ex, source, field);
    assert(c[0] == Some(field));
    lemma_earliest_candidate_wins(c, m, 0);
}

/// A bare reference whose same-namespace candidate is a key, and which is no key
/// itself, resolves to that candidate, whatever later rule would also match.
pub proof fn lemma_same_namespace_second<V>(
    ex: Exceptions,
    m: Map<Seq<char>, V>,
    source: Seq<char>,
    field: Seq<char>,
)
    requires
        !m.contains_key(field),
        heuristic_candidates(source, field, ex.domain@)[1] is Some,
        m.contains_key(heuristic_candidates(source, field, ex.domain@)[1]->0),
    ensures
        first_present(candidates(ex, source, field), m) == heuristic_candidates(source, field, ex.domain@)[1],
{
    let c = candidates(ex, source, field);
    assert(c[0] == Some(field));
    assert(c[1] == heuristic_candidates(source, field, ex.domain@)[1]);
    lemma_earliest_candidate_wins(c, m, 1);
}

} // verus!
