//! Following links among a candidate and the records around it.

use crate::changes::{sorted_set, sorted_texts};
use crate::diagnostics::CatalogError;
use crate::hosted_base::MAX_HOSTED_BASE_RELATED_RECORDS;
use crate::hosted_mutation::{fault, fault_of, CatalogFault};
use crate::hosted_plan::HostedQueryPlan;
use crate::hosted_residual::{is_current, projection_is_current_for_plan};
use crate::json::{copy_members, lemma_object_model, member_models, Json, JsonModel};
use crate::projection::{
    ProjectionFormat, ResolvedStructuralOccurrence, SemanticProjection, StructuralResolution,
    StructuralSourceKind,
};
use crate::text::{
    concat3, lemma_split_nonempty, same_text, split_on, split_text, texts, trim_text, trimmed,
};
use vstd::prelude::*;

verus! {

/// The records that a candidate's links reach.
#[derive(Debug)]
pub struct HostedRelationshipNeighborhood {
    /// The candidate's own projection, which records where its links go.
    pub projection: Option<SemanticProjection>,
    /// The projections of the records that it links to and that link to it.
    pub related: Vec<SemanticProjection>,
    /// Whether the lookup of related records was completed.
    pub complete: bool,
}

/// A record as expressions see it.
#[derive(Debug)]
pub struct LinkedFile {
    pub path: String,
    pub frontmatter: Json,
    pub body: String,
}

/// A link text of a record and the record that it leads to.
#[derive(Debug)]
pub struct StoredLink {
    pub source: String,
    pub key: String,
    pub target: String,
}

pub struct LinkModel {
    pub source: Seq<char>,
    pub key: Seq<char>,
    pub target: Seq<char>,
}

impl View for StoredLink {
    type V = LinkModel;

    open spec fn view(&self) -> LinkModel {
        LinkModel { source: self.source@, key: self.key@, target: self.target@ }
    }
}

pub open spec fn link_models(links: Seq<StoredLink>) -> Seq<LinkModel> {
    Seq::new(links.len(), |i: int| links[i]@)
}

pub struct FileModel {
    pub path: Seq<char>,
    pub frontmatter: JsonModel,
    pub body: Seq<char>,
}

impl View for LinkedFile {
    type V = FileModel;

    open spec fn view(&self) -> FileModel {
        FileModel { path: self.path@, frontmatter: self.frontmatter@, body: self.body@ }
    }
}

pub open spec fn file_models(files: Seq<LinkedFile>) -> Seq<FileModel> {
    Seq::new(files.len(), |i: int| files[i]@)
}

/// The text by which a link is followed: without its anchor and the white space
/// around it.
pub open spec fn link_key(raw: Seq<char>) -> Seq<char> {
    trimmed(split_on(raw, '#')[0])
}

fn link_key_of(raw: &str) -> (result: String)
    ensures
        result@ == link_key(raw@),
{
    let parts = split_text(raw, '#');
    proof {
        lemma_split_nonempty(raw@, '#');
        assert(texts(parts@)[0] == parts@[0]@);
    }
    trim_text(parts[0].as_str())
}

/// The links of a record that stand in its frontmatter, or those that do not.
pub open spec fn occurrence_links(
    source: Seq<char>,
    occurrences: Seq<ResolvedStructuralOccurrence>,
    frontmatter: bool,
) -> Seq<LinkModel>
    decreases occurrences.len(),
{
    if occurrences.len() == 0 {
        Seq::empty()
    } else {
        let rest = occurrence_links(source, occurrences.drop_last(), frontmatter);
        let last = occurrences.last();
        match last.target_path {
            Some(target) => if last.resolution == StructuralResolution::Resolved && (
            last.source_kind == StructuralSourceKind::Frontmatter) == frontmatter {
                rest.push(
                    LinkModel { source, key: link_key(last.raw_target@), target: target@ },
                )
            } else {
                rest
            },
            None => rest,
        }
    }
}

/// The links of a record, those in its frontmatter first.
pub open spec fn links_of(projection: SemanticProjection) -> Seq<LinkModel> {
    let source = projection.facts.path@;
    let occurrences = projection.structure.occurrences@;
    occurrence_links(source, occurrences, true) + occurrence_links(source, occurrences, false)
}

/// The links of a record and of those around it.
pub open spec fn all_links(own: SemanticProjection, related: Seq<SemanticProjection>) -> Seq<
    LinkModel,
>
    decreases related.len(),
{
    if related.len() == 0 {
        links_of(own)
    } else {
        all_links(own, related.drop_last()) + links_of(related.last())
    }
}

/// Where the first link of a record with a text leads.
pub open spec fn first_target(
    links: Seq<LinkModel>,
    source: Seq<char>,
    key: Seq<char>,
) -> Option<Seq<char>>
    decreases links.len(),
{
    if links.len() == 0 {
        None
    } else if links[0].source == source && links[0].key == key {
        Some(links[0].target)
    } else {
        first_target(links.drop_first(), source, key)
    }
}

/// The records that link to a path.
pub open spec fn sources_of(links: Seq<LinkModel>, target: Seq<char>) -> Seq<Seq<char>>
    decreases links.len(),
{
    if links.len() == 0 {
        Seq::empty()
    } else {
        let rest = sources_of(links.drop_last(), target);
        if links.last().target == target {
            rest.push(links.last().source)
        } else {
            rest
        }
    }
}

pub open spec fn lists_path(files: Seq<FileModel>, path: Seq<char>) -> bool {
    exists|i: int| 0 <= i < files.len() && (#[trigger] files[i]).path == path
}

/// The candidate and the related records, each path once.
pub open spec fn reachable_files(candidate: FileModel, related: Seq<SemanticProjection>) -> Seq<
    FileModel,
>
    decreases related.len(),
{
    if related.len() == 0 {
        seq![candidate]
    } else {
        let rest = reachable_files(candidate, related.drop_last());
        let last = related.last();
        if lists_path(rest, last.facts.path@) {
            rest
        } else {
            rest.push(
                FileModel {
                    path: last.facts.path@,
                    frontmatter: JsonModel::Object(
                        member_models(last.facts.effective_frontmatter@),
                    ),
                    body: Seq::empty(),
                },
            )
        }
    }
}

pub open spec fn stale_fault(path: Seq<char>) -> CatalogFault {
    fault(
        "hosted_projection_stale"@,
        "Link traversal requires a current projection for '"@ + path + "'."@,
    )
}

/// The first projection that is not current.
pub open spec fn first_stale(
    projections: Seq<SemanticProjection>,
    plan: HostedQueryPlan,
    format: ProjectionFormat,
) -> Option<Seq<char>>
    decreases projections.len(),
{
    if projections.len() == 0 {
        None
    } else if !is_current(plan, projections[0], format) {
        Some(projections[0].facts.path@)
    } else {
        first_stale(projections.drop_first(), plan, format)
    }
}

/// What stands against following a candidate's links.
pub open spec fn links_fault(
    candidate: Seq<char>,
    neighborhood: Option<&HostedRelationshipNeighborhood>,
    plan: HostedQueryPlan,
    format: ProjectionFormat,
) -> Option<CatalogFault> {
    let incomplete = fault(
        "hosted_collection_context_required"@,
        "This query follows links and requires the candidate's complete relationship neighborhood."@,
    );
    let mismatch = fault(
        "hosted_projection_mismatch"@,
        "The relationship neighborhood does not belong to this candidate."@,
    );
    match neighborhood {
        None => Some(incomplete),
        Some(found) => if !found.complete {
            Some(incomplete)
        } else if found.related@.len() > MAX_HOSTED_BASE_RELATED_RECORDS {
            Some(
                fault(
                    "hosted_relationship_budget_exceeded"@,
                    "The candidate's relationship neighborhood exceeds the semantic budget."@,
                ),
            )
        } else {
            match found.projection {
                None => Some(mismatch),
                Some(own) => if own.facts.path@ != candidate {
                    Some(mismatch)
                } else if !is_current(plan, own, format) {
                    Some(stale_fault(own.facts.path@))
                } else {
                    match first_stale(found.related@, plan, format) {
                        Some(path) => Some(stale_fault(path)),
                        None => None,
                    }
                },
            }
        },
    }
}

/// The records that a candidate's links reach, and the links among them.
#[derive(Debug)]
pub struct HostedLinkGraph {
    pub files: Vec<LinkedFile>,
    pub links: Vec<StoredLink>,
}

impl HostedLinkGraph {
    /// Where a link text of a record leads.
    pub fn target_of(&self, source: &str, key: &str) -> (result: Option<&str>)
        ensures
            match result {
                Some(target) => first_target(link_models(self.links@), source@, key@) == Some(
                    target@,
                ),
                None => first_target(link_models(self.links@), source@, key@) is None,
            },
    {
        let ghost models = link_models(self.links@);
        proof {
            assert(models.skip(0) =~= models);
        }
        let mut i: usize = 0;
        while i < self.links.len()
            invariant
                i <= self.links@.len(),
                models == link_models(self.links@),
                first_target(models, source@, key@) == first_target(
                    models.skip(i as int),
                    source@,
                    key@,
                ),
            decreases self.links@.len() - i,
        {
            proof {
                assert(models[i as int] == self.links@[i as int]@);
                assert(models.skip(i as int)[0] == models[i as int]);
                assert(models.skip(i as int).drop_first() =~= models.skip(i + 1));
            }
            let link = &self.links[i];
            if same_text(link.source.as_str(), source) && same_text(link.key.as_str(), key) {
                return Some(link.target.as_str());
            }
            i = i + 1;
        }
        None
    }

    /// The records that link to a path, each once and in ascending order.
    pub fn backlinks(&self, target: &str) -> (result: Vec<String>)
        ensures
            texts(result@) == sorted_set(sources_of(link_models(self.links@), target@)),
    {
        let ghost models = link_models(self.links@);
        let mut sources: Vec<String> = Vec::new();
        proof {
            assert(models.take(0) =~= Seq::empty());
            assert(texts(sources@) =~= Seq::empty());
        }
        let mut i: usize = 0;
        while i < self.links.len()
            invariant
                i <= self.links@.len(),
                models == link_models(self.links@),
                texts(sources@) == sources_of(models.take(i as int), target@),
            decreases self.links@.len() - i,
        {
            proof {
                assert(models.take(i + 1).drop_last() =~= models.take(i as int));
                assert(models.take(i + 1).last() == self.links@[i as int]@);
            }
            if same_text(self.links[i].target.as_str(), target) {
                let ghost before = sources@;
                let source = self.links[i].source.clone();
                sources.push(source);
                proof {
                    crate::text::lemma_texts_push(before, source);
                }
            }
            i = i + 1;
        }
        proof {
            assert(models.take(i as int) =~= models);
        }
        sorted_texts(&sources)
    }
}

fn add_links(
    links: &mut Vec<StoredLink>,
    source: &str,
    occurrences: &Vec<ResolvedStructuralOccurrence>,
    frontmatter: bool,
)
    ensures
        link_models(final(links)@) == link_models(old(links)@) + occurrence_links(
            source@,
            occurrences@,
            frontmatter,
        ),
{
    let ghost start = link_models(links@);
    let mut i: usize = 0;
    proof {
        assert(occurrences@.take(0) =~= Seq::empty());
        assert(start + Seq::<LinkModel>::empty() =~= start);
    }
    while i < occurrences.len()
        invariant
            i <= occurrences@.len(),
            start == link_models(old(links)@),
            link_models(links@) == start + occurrence_links(
                source@,
                occurrences@.take(i as int),
                frontmatter,
            ),
        decreases occurrences@.len() - i,
    {
        let occurrence = &occurrences[i];
        let ghost done = occurrence_links(source@, occurrences@.take(i as int), frontmatter);
        proof {
            assert(occurrences@.take(i + 1).drop_last() =~= occurrences@.take(i as int));
            assert(occurrences@.take(i + 1).last() == occurrences@[i as int]);
        }
        if let Some(target) = &occurrence.target_path {
            if occurrence.resolution == StructuralResolution::Resolved && (occurrence.source_kind
                == StructuralSourceKind::Frontmatter) == frontmatter {
                let ghost before = links@;
                let link = StoredLink {
                    source: source.to_owned(),
                    key: link_key_of(occurrence.raw_target.as_str()),
                    target: target.clone(),
                };
                links.push(link);
                proof {
                    assert(link_models(links@) =~= link_models(before).push(link@));
                    assert((start + done).push(link@) =~= start + done.push(link@));
                }
            }
        }
        i = i + 1;
    }
    proof {
        assert(occurrences@.take(i as int) =~= occurrences@);
    }
}

fn add_projection(links: &mut Vec<StoredLink>, projection: &SemanticProjection)
    ensures
        link_models(final(links)@) == link_models(old(links)@) + links_of(*projection),
{
    let ghost start = link_models(links@);
    let source = projection.facts.path.as_str();
    add_links(links, source, &projection.structure.occurrences, true);
    add_links(links, source, &projection.structure.occurrences, false);
    proof {
        let first = occurrence_links(source@, projection.structure.occurrences@, true);
        let second = occurrence_links(source@, projection.structure.occurrences@, false);
        assert((start + first) + second =~= start + (first + second));
    }
}

fn find_stale(
    projections: &Vec<SemanticProjection>,
    plan: &HostedQueryPlan,
    format: &ProjectionFormat,
) -> (result: Option<String>)
    ensures
        crate::text::optional_text(result) == first_stale(projections@, *plan, *format),
{
    let mut i: usize = 0;
    proof {
        assert(projections@.skip(0) =~= projections@);
    }
    while i < projections.len()
        invariant
            i <= projections@.len(),
            first_stale(projections@, *plan, *format) == first_stale(
                projections@.skip(i as int),
                *plan,
                *format,
            ),
        decreases projections@.len() - i,
    {
        proof {
            assert(projections@.skip(i as int)[0] == projections@[i as int]);
            assert(projections@.skip(i as int).drop_first() =~= projections@.skip(i + 1));
        }
        if !projection_is_current_for_plan(plan, &projections[i], format) {
            return Some(projections[i].facts.path.clone());
        }
        i = i + 1;
    }
    None
}

fn stale_error(path: &str) -> (result: CatalogError)
    ensures
        fault_of(result) == stale_fault(path@),
{
    CatalogError::new(
        "hosted_projection_stale",
        concat3("Link traversal requires a current projection for '", path, "'.").as_str(),
    )
}

fn knows_path(files: &Vec<LinkedFile>, path: &str) -> (result: bool)
    ensures
        result == lists_path(file_models(files@), path@),
{
    let ghost models = file_models(files@);
    let mut i: usize = 0;
    while i < files.len()
        invariant
            i <= files@.len(),
            models == file_models(files@),
            forall|k: int| 0 <= k < i ==> (#[trigger] models[k]).path != path@,
        decreases files@.len() - i,
    {
        proof {
            assert(models[i as int] == files@[i as int]@);
        }
        if same_text(files[i].path.as_str(), path) {
            return true;
        }
        i = i + 1;
    }
    false
}

/// The link graph of a candidate, from the records around it.
pub fn hosted_link_graph(
    candidate: LinkedFile,
    neighborhood: Option<&HostedRelationshipNeighborhood>,
    plan: &HostedQueryPlan,
    format: &ProjectionFormat,
) -> (result: Result<HostedLinkGraph, CatalogError>)
    ensures
        match result {
            Ok(graph) => {
                &&& links_fault(candidate.path@, neighborhood, *plan, *format) is None
                &&& file_models(graph.files@) == reachable_files(
                    candidate@,
                    (neighborhood->0).related@,
                )
                &&& link_models(graph.links@) == all_links(
                    (neighborhood->0).projection->0,
                    (neighborhood->0).related@,
                )
            },
            Err(error) => links_fault(candidate.path@, neighborhood, *plan, *format) == Some(
                fault_of(error),
            ),
        },
{
    let found = match neighborhood {
        Some(found) => found,
        None => {
            return Err(
                CatalogError::new(
                    "hosted_collection_context_required",
                    "This query follows links and requires the candidate's complete relationship neighborhood.",
                ),
            );
        },
    };
    if !found.complete {
        return Err(
            CatalogError::new(
                "hosted_collection_context_required",
                "This query follows links and requires the candidate's complete relationship neighborhood.",
            ),
        );
    }
    if found.related.len() > MAX_HOSTED_BASE_RELATED_RECORDS {
        return Err(
            CatalogError::new(
                "hosted_relationship_budget_exceeded",
                "The candidate's relationship neighborhood exceeds the semantic budget.",
            ),
        );
    }
    let own = match &found.projection {
        Some(own) => own,
        None => {
            return Err(
                CatalogError::new(
                    "hosted_projection_mismatch",
                    "The relationship neighborhood does not belong to this candidate.",
                ),
            );
        },
    };
    if !same_text(own.facts.path.as_str(), candidate.path.as_str()) {
        return Err(
            CatalogError::new(
                "hosted_projection_mismatch",
                "The relationship neighborhood does not belong to this candidate.",
            ),
        );
    }
    if !projection_is_current_for_plan(plan, own, format) {
        return Err(stale_error(own.facts.path.as_str()));
    }
    if let Some(path) = find_stale(&found.related, plan, format) {
        return Err(stale_error(path.as_str()));
    }
    let ghost first = candidate@;
    let mut links: Vec<StoredLink> = Vec::new();
    proof {
        assert(link_models(links@) =~= Seq::empty());
        assert(Seq::<LinkModel>::empty() + links_of(*own) =~= links_of(*own));
    }
    add_projection(&mut links, own);
    let mut files: Vec<LinkedFile> = Vec::new();
    files.push(candidate);
    proof {
        assert(file_models(files@) =~= seq![first]);
        assert(found.related@.take(0) =~= Seq::empty());
    }
    let mut i: usize = 0;
    while i < found.related.len()
        invariant
            i <= found.related@.len(),
            link_models(links@) == all_links(*own, found.related@.take(i as int)),
            file_models(files@) == reachable_files(first, found.related@.take(i as int)),
        decreases found.related@.len() - i,
    {
        broadcast use lemma_object_model;

        let projection = &found.related[i];
        proof {
            assert(found.related@.take(i + 1).drop_last() =~= found.related@.take(i as int));
            assert(found.related@.take(i + 1).last() == found.related@[i as int]);
        }
        add_projection(&mut links, projection);
        if !knows_path(&files, projection.facts.path.as_str()) {
            let ghost before = files@;
            proof {
                reveal_strlit("");
                assert(""@ =~= Seq::empty());
            }
            let file = LinkedFile {
                path: projection.facts.path.clone(),
                frontmatter: Json::Object(copy_members(&projection.facts.effective_frontmatter)),
                body: "".to_owned(),
            };
            files.push(file);
            proof {
                assert(file_models(files@) =~= file_models(before).push(file@));
            }
        }
        i = i + 1;
    }
    proof {
        assert(found.related@.take(i as int) =~= found.related@);
    }
    Ok(HostedLinkGraph { files, links })
}

/// Earlier links win over later ones with the same text; so a frontmatter link of a
/// record wins over its other links.
pub proof fn lemma_earlier_links_win(
    first: Seq<LinkModel>,
    second: Seq<LinkModel>,
    source: Seq<char>,
    key: Seq<char>,
)
    ensures
        first_target(first + second, source, key) == if first_target(first, source, key) is Some {
            first_target(first, source, key)
        } else {
            first_target(second, source, key)
        },
    decreases first.len(),
{
    if first.len() == 0 {
        assert(first + second =~= second);
    } else {
        assert((first + second)[0] == first[0]);
        assert((first + second).drop_first() =~= first.drop_first() + second);
        lemma_earlier_links_win(first.drop_first(), second, source, key);
    }
}

/// Without a complete neighborhood no link is followed.
pub proof fn lemma_incomplete_neighborhoods_are_refused(
    candidate: Seq<char>,
    neighborhood: Option<&HostedRelationshipNeighborhood>,
    plan: HostedQueryPlan,
    format: ProjectionFormat,
)
    requires
        links_fault(candidate, neighborhood, plan, format) is None,
    ensures
        neighborhood is Some,
        (neighborhood->0).complete,
        (neighborhood->0).projection is Some,
        ((neighborhood->0).projection->0).facts.path@ == candidate,
{
}

} // verus!
