//! Files, backlinks, and link resolutions that Base expressions see, built from
//! projections.

use crate::json::{
    copy_members, find_member, lookup, member_models, texts_among, Json, JsonModel, Member,
};
use crate::projection::{ResolvedStructuralOccurrence, SemanticProjection, StructuralResolution};
use crate::sorting::{arranged, sorted_positions, stably_sorted, Comparison};
use crate::text::{
    ascending_texts, ascii_lower, compare_text, copy_optional, file_folder, folder_of, insert_text,
    merge_texts, merged_texts, optional_text, replace_char, replaced, same_text, text_order, texts,
    to_ascii_lower, trim_start_char, trimmed_start, Order,
};
use vstd::prelude::*;

verus! {

/// A link of a file. The resolved path is absent where the indexer did not
/// resolve the link, and empty where it leads nowhere.
#[derive(Debug)]
pub struct BasesLink {
    pub path: String,
    pub resolved_path: Option<Option<String>>,
}

/// What a link holds.
pub struct LinkModel {
    pub path: Seq<char>,
    pub resolved_path: Option<Option<Seq<char>>>,
}

impl View for BasesLink {
    type V = LinkModel;

    open spec fn view(&self) -> LinkModel {
        LinkModel {
            path: self.path@,
            resolved_path: match self.resolved_path {
                Some(path) => Some(optional_text(path)),
                None => None,
            },
        }
    }
}

/// A file as Base expressions see it.
#[derive(Debug)]
pub struct BasesFile {
    pub path: String,
    pub name: String,
    pub basename: String,
    pub folder: String,
    pub extension: String,
    pub size: u64,
    pub properties: Vec<Member>,
    pub tags: Vec<String>,
    pub links: Vec<BasesLink>,
    pub embeds: Vec<BasesLink>,
    pub backlinks: Vec<BasesLink>,
    pub ctime: Option<String>,
    pub mtime: Option<String>,
}

/// What a list of links holds.
pub open spec fn link_models(links: Seq<BasesLink>) -> Seq<LinkModel> {
    Seq::new(links.len(), |i: int| links[i]@)
}

// ---------------------------------------------------------------------------
// Tags
// ---------------------------------------------------------------------------
/// The texts without leading number signs.
pub open spec fn without_signs(values: Seq<Seq<char>>) -> Seq<Seq<char>> {
    Seq::new(values.len(), |i: int| trimmed_start(values[i], '#'))
}

/// The tags of a frontmatter: one text, or a list of texts.
pub open spec fn frontmatter_tags(members: Seq<(Seq<char>, JsonModel)>) -> Seq<Seq<char>> {
    match lookup(members, "tags"@) {
        Some(JsonModel::Text(text)) => seq![trimmed_start(text, '#')],
        Some(JsonModel::Array(items)) => without_signs(texts_among(items)),
        _ => Seq::empty(),
    }
}

fn collect_frontmatter_tags(members: &Vec<Member>) -> (result: Vec<String>)
    ensures
        texts(result@) == frontmatter_tags(member_models(members@)),
{
    broadcast use crate::json::lemma_array_model;

    let mut result: Vec<String> = Vec::new();
    match find_member(members, "tags") {
        Some(Json::Text(text)) => {
            result.push(trim_start_char(text.as_str(), '#'));
            proof {
                assert(texts(result@) =~= frontmatter_tags(member_models(members@)));
            }
            return result;
        },
        Some(Json::Array(items)) => {
            let values = crate::json::collect_texts(items);
            let ghost all = texts(values@);
            let mut i: usize = 0;
            while i < values.len()
                invariant
                    i <= values@.len(),
                    all == texts(values@),
                    result@.len() == i,
                    forall|k: int|
                        0 <= k < i ==> (#[trigger] result@[k])@ == trimmed_start(all[k], '#'),
                decreases values@.len() - i,
            {
                result.push(trim_start_char(values[i].as_str(), '#'));
                i = i + 1;
            }
            proof {
                assert(texts(result@) =~= without_signs(all));
            }
            return result;
        },
        _ => {},
    }
    proof {
        assert(texts(result@) =~= Seq::empty());
    }
    result
}

// ---------------------------------------------------------------------------
// Links
// ---------------------------------------------------------------------------
/// What the last resolved occurrence of a link text says: the path it leads to,
/// or that it leads nowhere.
pub open spec fn resolution_of(
    occurrences: Seq<ResolvedStructuralOccurrence>,
    target: Seq<char>,
) -> Option<Option<Seq<char>>>
    decreases occurrences.len(),
{
    if occurrences.len() == 0 {
        None
    } else {
        let last = occurrences.last();
        if last.raw_target@ == target && last.resolution != StructuralResolution::Unresolved {
            Some(
                if last.resolution == StructuralResolution::Resolved {
                    optional_text(last.target_path)
                } else {
                    None
                },
            )
        } else {
            resolution_of(occurrences.drop_last(), target)
        }
    }
}

fn find_resolution(
    occurrences: &Vec<ResolvedStructuralOccurrence>,
    target: &str,
) -> (result: Option<Option<String>>)
    ensures
        match result {
            Some(path) => resolution_of(occurrences@, target@) == Some(optional_text(path)),
            None => resolution_of(occurrences@, target@) is None,
        },
{
    let mut i: usize = occurrences.len();
    proof {
        assert(occurrences@.take(i as int) =~= occurrences@);
    }
    while i > 0
        invariant
            i <= occurrences@.len(),
            resolution_of(occurrences@, target@) == resolution_of(
                occurrences@.take(i as int),
                target@,
            ),
        decreases i,
    {
        proof {
            assert(occurrences@.take(i as int).drop_last() =~= occurrences@.take(i - 1));
            assert(occurrences@.take(i as int).last() == occurrences@[i - 1]);
        }
        i = i - 1;
        let occurrence = &occurrences[i];
        if same_text(occurrence.raw_target.as_str(), target) && occurrence.resolution
            != StructuralResolution::Unresolved {
            if occurrence.resolution == StructuralResolution::Resolved {
                return Some(copy_optional(&occurrence.target_path));
            }
            return Some(None);
        }
    }
    None
}

/// The links of a file with these targets.
pub open spec fn links_to(
    targets: Seq<String>,
    occurrences: Seq<ResolvedStructuralOccurrence>,
) -> Seq<LinkModel> {
    Seq::new(
        targets.len(),
        |i: int|
            LinkModel {
                path: targets[i]@,
                resolved_path: resolution_of(occurrences, targets[i]@),
            },
    )
}

fn build_links(
    targets: &Vec<String>,
    occurrences: &Vec<ResolvedStructuralOccurrence>,
) -> (result: Vec<BasesLink>)
    ensures
        link_models(result@) == links_to(targets@, occurrences@),
{
    let mut links: Vec<BasesLink> = Vec::new();
    let mut i: usize = 0;
    while i < targets.len()
        invariant
            i <= targets@.len(),
            links@.len() == i,
            forall|k: int|
                0 <= k < i ==> (#[trigger] links@[k])@ == links_to(targets@, occurrences@)[k],
        decreases targets@.len() - i,
    {
        let resolved_path = find_resolution(occurrences, targets[i].as_str());
        links.push(BasesLink { path: targets[i].clone(), resolved_path });
        i = i + 1;
    }
    proof {
        assert(link_models(links@) =~= links_to(targets@, occurrences@));
    }
    links
}

/// Whether a file is that of a projection, backlinks aside.
pub open spec fn is_file_of(file: BasesFile, projection: SemanticProjection) -> bool {
    let facts = projection.facts;
    let structure = projection.structure;
    &&& file.path@ == facts.file.path@
    &&& file.name@ == facts.file.name@
    &&& file.basename@ == facts.file.basename@
    &&& file.folder@ == replaced(folder_of(facts.file.path@), '\\', '/')
    &&& file.extension@ == facts.file.extension@
    &&& file.size == facts.file.size
    &&& member_models(file.properties@) == member_models(facts.effective_frontmatter@)
    &&& texts(file.tags@) == merged_texts(
        frontmatter_tags(member_models(facts.effective_frontmatter@)),
        texts(structure.body_tags@),
    )
    &&& link_models(file.links@) == links_to(structure.body_links@, structure.occurrences@)
    &&& link_models(file.embeds@) == links_to(structure.body_embeds@, structure.occurrences@)
    &&& file.ctime is None
    &&& file.mtime == facts.file.mtime
}

pub fn projection_file(projection: &SemanticProjection) -> (result: BasesFile)
    ensures
        is_file_of(result, *projection),
        result.backlinks@.len() == 0,
{
    let facts = &projection.facts;
    let structure = &projection.structure;
    let tags = merge_texts(
        collect_frontmatter_tags(&facts.effective_frontmatter),
        &structure.body_tags,
    );
    let folder = replace_char(file_folder(facts.file.path.as_str()).as_str(), '\\', '/');
    BasesFile {
        path: facts.file.path.clone(),
        name: facts.file.name.clone(),
        basename: facts.file.basename.clone(),
        folder,
        extension: facts.file.extension.clone(),
        size: facts.file.size,
        properties: copy_members(&facts.effective_frontmatter),
        tags,
        links: build_links(&structure.body_links, &structure.occurrences),
        embeds: build_links(&structure.body_embeds, &structure.occurrences),
        backlinks: Vec::new(),
        ctime: None,
        mtime: copy_optional(&facts.file.mtime),
    }
}

// ---------------------------------------------------------------------------
// Backlinks
// ---------------------------------------------------------------------------
/// Whether a projected record links to a path.
pub open spec fn links_to_path(projection: SemanticProjection, path: Seq<char>) -> bool {
    exists|k: int|
        0 <= k < projection.structure.occurrences@.len() && optional_text(
            (#[trigger] projection.structure.occurrences@[k]).target_path,
        ) == Some(path)
}

fn has_link_to(projection: &SemanticProjection, path: &str) -> (result: bool)
    ensures
        result == links_to_path(*projection, path@),
{
    let occurrences = &projection.structure.occurrences;
    let mut k: usize = 0;
    while k < occurrences.len()
        invariant
            k <= occurrences@.len(),
            occurrences == &projection.structure.occurrences,
            forall|m: int|
                0 <= m < k ==> optional_text((#[trigger] occurrences@[m]).target_path) != Some(
                    path@,
                ),
        decreases occurrences@.len() - k,
    {
        if let Some(target) = &occurrences[k].target_path {
            if same_text(target.as_str(), path) {
                return true;
            }
        }
        k = k + 1;
    }
    false
}

/// Whether one of the projections is a record at `source` that links to a path.
pub open spec fn is_linked_from(
    projections: Seq<SemanticProjection>,
    path: Seq<char>,
    source: Seq<char>,
) -> bool {
    exists|i: int|
        0 <= i < projections.len() && (#[trigger] projections[i]).facts.path@ == source
            && links_to_path(projections[i], path)
}

/// The backlinks of a path: the paths of the records that link to it, each once
/// and ascending.
pub open spec fn are_backlinks(
    links: Seq<LinkModel>,
    projections: Seq<SemanticProjection>,
    path: Seq<char>,
) -> bool {
    let paths = Seq::new(links.len(), |i: int| links[i].path);
    &&& ascending_texts(paths)
    &&& forall|source: Seq<char>| #[trigger]
        paths.contains(source) <==> is_linked_from(projections, path, source)
    &&& forall|i: int|
        0 <= i < links.len() ==> (#[trigger] links[i]).resolved_path == Some(Some(links[i].path))
}

/// The projections behind a list of references.
pub open spec fn projections_of(list: Seq<&SemanticProjection>) -> Seq<SemanticProjection> {
    Seq::new(list.len(), |i: int| *list[i])
}

fn collect_backlinks(projections: &Vec<&SemanticProjection>, path: &str) -> (result: Vec<BasesLink>)
    ensures
        are_backlinks(link_models(result@), projections_of(projections@), path@),
{
    let ghost all = projections_of(projections@);
    let mut sources: Vec<String> = Vec::new();
    let mut i: usize = 0;
    while i < projections.len()
        invariant
            i <= projections@.len(),
            all == projections_of(projections@),
            ascending_texts(texts(sources@)),
            forall|source: Seq<char>| #[trigger]
                texts(sources@).contains(source) <==> is_linked_from(
                    all.take(i as int),
                    path@,
                    source,
                ),
        decreases projections@.len() - i,
    {
        let ghost before = texts(sources@);
        let ghost current = all[i as int];
        let linked = has_link_to(projections[i], path);
        if linked {
            insert_text(&mut sources, projections[i].facts.path.clone());
        }
        proof {
            let next = all.take(i + 1);
            assert forall|source: Seq<char>| #[trigger]
                texts(sources@).contains(source) <==> is_linked_from(next, path@, source) by {
                assert(before.contains(source) <==> is_linked_from(
                    all.take(i as int),
                    path@,
                    source,
                ));
                if is_linked_from(all.take(i as int), path@, source) {
                    let k = choose|k: int|
                        0 <= k < all.take(i as int).len() && (#[trigger] all.take(
                            i as int,
                        )[k]).facts.path@ == source && links_to_path(
                            all.take(i as int)[k],
                            path@,
                        );
                    assert(next[k] == all.take(i as int)[k]);
                }
                if linked && source == current.facts.path@ {
                    assert(next[i as int] == current);
                }
                if is_linked_from(next, path@, source) {
                    let k = choose|k: int|
                        0 <= k < next.len() && (#[trigger] next[k]).facts.path@ == source
                            && links_to_path(next[k], path@);
                    if k < i {
                        assert(all.take(i as int)[k] == next[k]);
                    } else {
                        assert(next[k] == current);
                    }
                }
            }
        }
        i = i + 1;
    }
    let mut links: Vec<BasesLink> = Vec::new();
    let mut k: usize = 0;
    while k < sources.len()
        invariant
            k <= sources@.len(),
            links@.len() == k,
            forall|m: int|
                0 <= m < k ==> (#[trigger] links@[m])@ == (LinkModel {
                    path: sources@[m]@,
                    resolved_path: Some(Some(sources@[m]@)),
                }),
        decreases sources@.len() - k,
    {
        let path = sources[k].clone();
        links.push(BasesLink { path: path.clone(), resolved_path: Some(Some(path)) });
        k = k + 1;
    }
    proof {
        assert(all.take(i as int) =~= all);
        let models = link_models(links@);
        assert(Seq::new(models.len(), |i: int| models[i].path) =~= texts(sources@));
    }
    links
}

/// The files of projections, each with the links that lead to it.
pub open spec fn are_files(files: Seq<BasesFile>, projections: Seq<SemanticProjection>) -> bool {
    &&& files.len() == projections.len()
    &&& forall|i: int|
        0 <= i < files.len() ==> {
            &&& is_file_of(#[trigger] files[i], projections[i])
            &&& are_backlinks(link_models(files[i].backlinks@), projections, files[i].path@)
        }
}

/// Builds the files of projections with their backlinks.
pub fn populate_backlinks(projections: &Vec<&SemanticProjection>) -> (result: Vec<BasesFile>)
    ensures
        are_files(result@, projections_of(projections@)),
{
    let ghost all = projections_of(projections@);
    let mut files: Vec<BasesFile> = Vec::new();
    let mut i: usize = 0;
    while i < projections.len()
        invariant
            i <= projections@.len(),
            all == projections_of(projections@),
            files@.len() == i,
            forall|k: int|
                0 <= k < i ==> {
                    &&& is_file_of(#[trigger] files@[k], all[k])
                    &&& are_backlinks(link_models(files@[k].backlinks@), all, files@[k].path@)
                },
        decreases projections@.len() - i,
    {
        let file = projection_file(projections[i]);
        let backlinks = collect_backlinks(projections, file.path.as_str());
        let BasesFile {
            path,
            name,
            basename,
            folder,
            extension,
            size,
            properties,
            tags,
            links,
            embeds,
            backlinks: _,
            ctime,
            mtime,
        } = file;
        files.push(
            BasesFile {
                path,
                name,
                basename,
                folder,
                extension,
                size,
                properties,
                tags,
                links,
                embeds,
                backlinks,
                ctime,
                mtime,
            },
        );
        i = i + 1;
    }
    files
}

// ---------------------------------------------------------------------------
// Link resolutions
// ---------------------------------------------------------------------------
/// A text and a path that it may stand for.
#[derive(Debug)]
pub struct LinkPair {
    pub key: String,
    pub target: String,
}

/// What pairs hold.
pub open spec fn pair_models(pairs: Seq<LinkPair>) -> Seq<(Seq<char>, Seq<char>)> {
    Seq::new(pairs.len(), |i: int| (pairs[i].key@, pairs[i].target@))
}

/// The pairs of the keys of one record: each key, and the key in lower case.
pub open spec fn key_pairs(
    projection: SemanticProjection,
    count: nat,
) -> Seq<(Seq<char>, Seq<char>)>
    decreases count,
{
    let keys = projection.facts.resolution_keys@;
    if count == 0 || count > keys.len() {
        Seq::empty()
    } else {
        let path = projection.facts.path@;
        let value = keys[count - 1].value@;
        key_pairs(projection, (count - 1) as nat).push((value, path)).push(
            (ascii_lower(value), path),
        )
    }
}

/// The pairs of the links of one record that lead somewhere: their text as
/// written, and in normal form where there is one.
pub open spec fn occurrence_pairs(
    projection: SemanticProjection,
    count: nat,
) -> Seq<(Seq<char>, Seq<char>)>
    decreases count,
{
    let occurrences = projection.structure.occurrences@;
    if count == 0 || count > occurrences.len() {
        Seq::empty()
    } else {
        let rest = occurrence_pairs(projection, (count - 1) as nat);
        let occurrence = occurrences[count - 1];
        match occurrence.target_path {
            Some(target) => {
                let first = rest.push((occurrence.raw_target@, target@));
                match occurrence.normalized_target {
                    Some(normalized) => first.push((normalized@, target@)),
                    None => first,
                }
            },
            None => rest,
        }
    }
}

/// The pairs of all records.
pub open spec fn link_pairs(
    projections: Seq<SemanticProjection>,
    count: nat,
) -> Seq<(Seq<char>, Seq<char>)>
    decreases count,
{
    if count == 0 || count > projections.len() {
        Seq::empty()
    } else {
        let projection = projections[count - 1];
        link_pairs(projections, (count - 1) as nat) + key_pairs(
            projection,
            projection.facts.resolution_keys@.len(),
        ) + occurrence_pairs(projection, projection.structure.occurrences@.len())
    }
}

fn push_pair(pairs: &mut Vec<LinkPair>, key: String, target: String)
    ensures
        pair_models(final(pairs)@) == pair_models(old(pairs)@).push((key@, target@)),
{
    let ghost before = pairs@;
    let ghost pair = (key@, target@);
    pairs.push(LinkPair { key, target });
    proof {
        assert(pair_models(pairs@) =~= pair_models(before).push(pair));
    }
}

fn collect_pairs(projections: &Vec<&SemanticProjection>) -> (result: Vec<LinkPair>)
    ensures
        pair_models(result@) == link_pairs(projections_of(projections@), projections@.len()),
{
    let ghost all = projections_of(projections@);
    let mut pairs: Vec<LinkPair> = Vec::new();
    let mut i: usize = 0;
    proof {
        assert(pair_models(pairs@) =~= Seq::empty());
    }
    while i < projections.len()
        invariant
            i <= projections@.len(),
            all == projections_of(projections@),
            pair_models(pairs@) == link_pairs(all, i as nat),
        decreases projections@.len() - i,
    {
        let projection = projections[i];
        let ghost start = pair_models(pairs@);
        let keys = &projection.facts.resolution_keys;
        let mut k: usize = 0;
        proof {
            assert(start =~= start + key_pairs(*projection, 0));
        }
        while k < keys.len()
            invariant
                k <= keys@.len(),
                keys == &projection.facts.resolution_keys,
                pair_models(pairs@) == start + key_pairs(*projection, k as nat),
            decreases keys@.len() - k,
        {
            push_pair(&mut pairs, keys[k].value.clone(), projection.facts.path.clone());
            push_pair(
                &mut pairs,
                to_ascii_lower(keys[k].value.as_str()),
                projection.facts.path.clone(),
            );
            k = k + 1;
            proof {
                assert(pair_models(pairs@) =~= start + key_pairs(*projection, k as nat));
            }
        }
        let ghost middle = pair_models(pairs@);
        let occurrences = &projection.structure.occurrences;
        let mut k: usize = 0;
        proof {
            assert(middle =~= middle + occurrence_pairs(*projection, 0));
        }
        while k < occurrences.len()
            invariant
                k <= occurrences@.len(),
                occurrences == &projection.structure.occurrences,
                pair_models(pairs@) == middle + occurrence_pairs(*projection, k as nat),
            decreases occurrences@.len() - k,
        {
            if let Some(target) = &occurrences[k].target_path {
                push_pair(&mut pairs, occurrences[k].raw_target.clone(), target.clone());
                if let Some(normalized) = &occurrences[k].normalized_target {
                    push_pair(&mut pairs, normalized.clone(), target.clone());
                }
            }
            k = k + 1;
            proof {
                assert(pair_models(pairs@) =~= middle + occurrence_pairs(*projection, k as nat));
            }
        }
        i = i + 1;
    }
    pairs
}

/// Where a link text leads: to a path, or nowhere in particular.
#[derive(Debug)]
pub struct LinkResolution {
    pub key: String,
    pub target: Option<String>,
}

/// The keys of resolutions.
pub open spec fn resolution_keys(list: Seq<LinkResolution>) -> Seq<Seq<char>> {
    Seq::new(list.len(), |i: int| list[i].key@)
}

/// Whether a key stands for a path in some pair.
pub open spec fn may_stand_for(
    pairs: Seq<(Seq<char>, Seq<char>)>,
    key: Seq<char>,
    target: Seq<char>,
) -> bool {
    pairs.contains((key, target))
}

/// Whether a target is what a key stands for: the one path it may stand for, or
/// nothing where there are several.
pub open spec fn is_resolution(
    pairs: Seq<(Seq<char>, Seq<char>)>,
    key: Seq<char>,
    target: Option<Seq<char>>,
) -> bool {
    match target {
        Some(path) => may_stand_for(pairs, key, path) && forall|other: Seq<char>|
            may_stand_for(pairs, key, other) ==> other == path,
        None => exists|first: Seq<char>, second: Seq<char>|
            #![trigger may_stand_for(pairs, key, first), may_stand_for(pairs, key, second)]
            may_stand_for(pairs, key, first) && may_stand_for(pairs, key, second) && first
                != second,
    }
}

/// The resolutions of pairs: one for each key, ascending.
pub open spec fn are_resolutions(
    list: Seq<LinkResolution>,
    pairs: Seq<(Seq<char>, Seq<char>)>,
) -> bool {
    &&& ascending_texts(resolution_keys(list))
    &&& forall|i: int|
        0 <= i < list.len() ==> is_resolution(
            pairs,
            (#[trigger] list[i]).key@,
            optional_text(list[i].target),
        )
    &&& forall|i: int|
        0 <= i < pairs.len() ==> resolution_keys(list).contains((#[trigger] pairs[i]).0)
}

proof fn lemma_resolution_kept(
    pairs: Seq<(Seq<char>, Seq<char>)>,
    pair: (Seq<char>, Seq<char>),
    key: Seq<char>,
    target: Option<Seq<char>>,
)
    requires
        is_resolution(pairs, key, target),
        pair.0 != key || target is None || target == Some(pair.1),
    ensures
        is_resolution(pairs.push(pair), key, target),
{
    let after = pairs.push(pair);
    assert forall|other: Seq<char>| may_stand_for(pairs, key, other) implies may_stand_for(
        after,
        key,
        other,
    ) by {
        let k = choose|k: int| 0 <= k < pairs.len() && pairs[k] == (key, other);
        assert(after[k] == (key, other));
    }
    match target {
        Some(path) => {
            assert forall|other: Seq<char>| may_stand_for(after, key, other) implies other
                == path by {
                let k = choose|k: int| 0 <= k < after.len() && after[k] == (key, other);
                if k < pairs.len() {
                    assert(pairs[k] == (key, other));
                    assert(may_stand_for(pairs, key, other));
                }
            }
        },
        None => {
            let (first, second) = choose|first: Seq<char>, second: Seq<char>|
                #![trigger may_stand_for(pairs, key, first), may_stand_for(pairs, key, second)]
                may_stand_for(pairs, key, first) && may_stand_for(pairs, key, second) && first
                    != second;
            assert(may_stand_for(after, key, first));
            assert(may_stand_for(after, key, second));
        },
    }
}

fn add_pair(
    list: &mut Vec<LinkResolution>,
    pair: &LinkPair,
    Ghost(pairs): Ghost<Seq<(Seq<char>, Seq<char>)>>,
)
    requires
        are_resolutions(old(list)@, pairs),
    ensures
        are_resolutions(final(list)@, pairs.push((pair.key@, pair.target@))),
{
    let ghost before = list@;
    let ghost keys = resolution_keys(before);
    let ghost model = (pair.key@, pair.target@);
    let ghost after_pairs = pairs.push(model);
    let mut at: usize = 0;
    while at < list.len() && compare_text(list[at].key.as_str(), pair.key.as_str()).is_lt()
        invariant
            at <= list@.len(),
            list@ == before,
            keys == resolution_keys(before),
            forall|k: int|
                0 <= k < at ==> text_order(#[trigger] keys[k], pair.key@) == Order::Less,
        decreases list@.len() - at,
    {
        at = at + 1;
    }
    proof {
        assert(after_pairs[pairs.len() as int] == model);
        assert(may_stand_for(after_pairs, pair.key@, pair.target@));
    }
    if at < list.len() && compare_text(list[at].key.as_str(), pair.key.as_str()).is_eq() {
        proof {
            crate::text::lemma_text_order_equal(keys[at as int], pair.key@);
        }
        let same = match &list[at].target {
            Some(target) => same_text(target.as_str(), pair.target.as_str()),
            None => true,
        };
        let ghost old_target = optional_text(before[at as int].target);
        if !same {
            let key = list[at].key.clone();
            list.set(at, LinkResolution { key, target: None });
        }
        proof {
            assert(resolution_keys(list@) =~= keys);
            assert forall|i: int| 0 <= i < list@.len() implies is_resolution(
                after_pairs,
                (#[trigger] list@[i]).key@,
                optional_text(list@[i].target),
            ) by {
                assert(is_resolution(pairs, before[i].key@, optional_text(before[i].target)));
                if i == at {
                    if same {
                        lemma_resolution_kept(pairs, model, before[i].key@, old_target);
                    } else {
                        let path = old_target->0;
                        assert(may_stand_for(pairs, pair.key@, path));
                        let k = choose|k: int|
                            0 <= k < pairs.len() && pairs[k] == (pair.key@, path);
                        assert(after_pairs[k] == (pair.key@, path));
                        assert(may_stand_for(after_pairs, pair.key@, path));
                    }
                } else {
                    crate::text::lemma_text_order_equal(keys[i], pair.key@);
                    if i < at {
                        assert(text_order(keys[i], pair.key@) == Order::Less);
                    } else {
                        assert(text_order(keys[at as int], keys[i]) == Order::Less);
                        crate::text::lemma_text_order_equal(keys[at as int], keys[i]);
                    }
                    lemma_resolution_kept(
                        pairs,
                        model,
                        before[i].key@,
                        optional_text(before[i].target),
                    );
                }
            }
            assert forall|i: int| 0 <= i < after_pairs.len() implies resolution_keys(
                list@,
            ).contains((#[trigger] after_pairs[i]).0) by {
                if i < pairs.len() {
                    assert(after_pairs[i] == pairs[i]);
                } else {
                    assert(keys[at as int] == pair.key@);
                }
            }
        }
        return ;
    }
    list.insert(
        at,
        LinkResolution { key: pair.key.clone(), target: Some(pair.target.clone()) },
    );
    proof {
        let after = list@;
        let next = resolution_keys(after);
        assert(next =~= keys.insert(at as int, pair.key@));
        assert forall|i: int, j: int|
            #![trigger next[i], next[j]]
            0 <= i < j < next.len() implies text_order(next[i], next[j]) == Order::Less by {
            let b = if j < at {
                j
            } else {
                j - 1
            };
            if j == at {
                assert(keys[i] == next[i]);
            } else if i == at {
                assert(next[j] == keys[b]);
                assert(text_order(keys[at as int], pair.key@) == Order::Greater);
                crate::text::lemma_text_order_reverse(keys[at as int], pair.key@);
                if b > at {
                    assert(text_order(keys[at as int], keys[b]) == Order::Less);
                    crate::text::lemma_text_order_transitive(pair.key@, keys[at as int], keys[b]);
                }
            } else {
                let a = if i < at {
                    i
                } else {
                    i - 1
                };
                assert(next[i] == keys[a]);
                assert(next[j] == keys[b]);
            }
        }
        assert forall|k: int| 0 <= k < keys.len() implies #[trigger] keys[k] != pair.key@ by {
            crate::text::lemma_text_order_equal(keys[k], pair.key@);
            if k >= at {
                assert(text_order(keys[at as int], pair.key@) == Order::Greater);
                if k > at {
                    assert(text_order(keys[at as int], keys[k]) == Order::Less);
                    crate::text::lemma_text_order_reverse(keys[at as int], pair.key@);
                    crate::text::lemma_text_order_transitive(pair.key@, keys[at as int], keys[k]);
                    crate::text::lemma_text_order_equal(pair.key@, keys[k]);
                }
            }
        }
        assert forall|i: int| 0 <= i < after.len() implies is_resolution(
            after_pairs,
            (#[trigger] after[i]).key@,
            optional_text(after[i].target),
        ) by {
            if i == at {
                assert forall|other: Seq<char>|
                    may_stand_for(after_pairs, pair.key@, other) implies other == pair.target@ by {
                    let k = choose|k: int|
                        0 <= k < after_pairs.len() && after_pairs[k] == (pair.key@, other);
                    if k < pairs.len() {
                        assert(pairs[k].0 == pair.key@);
                        assert(keys.contains(pairs[k].0));
                        let m = choose|m: int| 0 <= m < keys.len() && keys[m] == pairs[k].0;
                        assert(keys[m] != pair.key@);
                    }
                }
            } else {
                let a = if i < at {
                    i
                } else {
                    i - 1
                };
                assert(after[i] == before[a]);
                assert(is_resolution(pairs, before[a].key@, optional_text(before[a].target)));
                assert(keys[a] != pair.key@);
                lemma_resolution_kept(
                    pairs,
                    model,
                    before[a].key@,
                    optional_text(before[a].target),
                );
            }
        }
        assert forall|i: int| 0 <= i < after_pairs.len() implies next.contains(
            (#[trigger] after_pairs[i]).0,
        ) by {
            if i < pairs.len() {
                assert(after_pairs[i] == pairs[i]);
                assert(keys.contains(pairs[i].0));
                let m = choose|m: int| 0 <= m < keys.len() && keys[m] == pairs[i].0;
                assert(next[if m < at {
                    m
                } else {
                    m + 1
                }] == pairs[i].0);
            } else {
                assert(next[at as int] == pair.key@);
            }
        }
    }
}

/// What link texts built inside expressions resolve to, among the supplied
/// records only.
pub fn link_resolutions(projections: &Vec<&SemanticProjection>) -> (result: Vec<LinkResolution>)
    ensures
        are_resolutions(
            result@,
            link_pairs(projections_of(projections@), projections@.len()),
        ),
{
    let pairs = collect_pairs(projections);
    let ghost all = pair_models(pairs@);
    let mut list: Vec<LinkResolution> = Vec::new();
    let mut i: usize = 0;
    while i < pairs.len()
        invariant
            i <= pairs@.len(),
            all == pair_models(pairs@),
            are_resolutions(list@, all.take(i as int)),
        decreases pairs@.len() - i,
    {
        add_pair(&mut list, &pairs[i], Ghost(all.take(i as int)));
        proof {
            assert(all.take(i + 1) =~= all.take(i as int).push(all[i as int]));
        }
        i = i + 1;
    }
    proof {
        assert(all.take(i as int) =~= all);
    }
    list
}

// ---------------------------------------------------------------------------
// The neighborhood
// ---------------------------------------------------------------------------
struct PathOrder<'a> {
    projections: &'a Vec<&'a SemanticProjection>,
}

/// How the projections at two positions compare by path.
pub open spec fn order_by_path(projections: Seq<SemanticProjection>) -> spec_fn(int, int) -> Order {
    |i: int, j: int| text_order(projections[i].facts.path@, projections[j].facts.path@)
}

impl<'a> Comparison for PathOrder<'a> {
    closed spec fn count(&self) -> nat {
        self.projections@.len()
    }

    closed spec fn order(&self) -> spec_fn(int, int) -> Order {
        order_by_path(projections_of(self.projections@))
    }

    fn size(&self) -> (result: usize) {
        self.projections.len()
    }

    fn compare(&self, left: usize, right: usize) -> (result: Order) {
        compare_text(
            self.projections[left].facts.path.as_str(),
            self.projections[right].facts.path.as_str(),
        )
    }
}

/// The projections without those that directly follow one of the same path.
pub open spec fn without_repeats(projections: Seq<SemanticProjection>) -> Seq<SemanticProjection>
    decreases projections.len(),
{
    if projections.len() == 0 {
        Seq::empty()
    } else {
        let rest = without_repeats(projections.drop_last());
        if rest.len() > 0 && rest.last().facts.path@ == projections.last().facts.path@ {
            rest
        } else {
            rest.push(projections.last())
        }
    }
}

/// Whether projections are others in stable path order, each path once.
pub open spec fn is_neighborhood(
    result: Seq<SemanticProjection>,
    projections: Seq<SemanticProjection>,
) -> bool {
    exists|positions: Seq<usize>| #[trigger]
        stably_sorted(projections.len(), order_by_path(projections), positions) && result
            == without_repeats(arranged(projections, positions))
}

/// The projections in path order, the first of each path.
pub fn sort_neighborhood<'a>(projections: Vec<&'a SemanticProjection>) -> (result: Vec<
    &'a SemanticProjection,
>)
    ensures
        is_neighborhood(projections_of(result@), projections_of(projections@)),
{
    let ghost all = projections_of(projections@);
    let context = PathOrder { projections: &projections };
    let positions = sorted_positions(&context);
    let ghost ordered = arranged(all, positions@);
    proof {
        assert(stably_sorted(all.len(), order_by_path(all), positions@));
    }
    let mut result: Vec<&'a SemanticProjection> = Vec::new();
    let mut k: usize = 0;
    proof {
        assert(projections_of(result@) =~= without_repeats(ordered.take(0)));
    }
    while k < positions.len()
        invariant
            k <= positions@.len(),
            all == projections_of(projections@),
            ordered == arranged(all, positions@),
            forall|m: int|
                0 <= m < positions@.len() ==> (#[trigger] positions@[m]) < projections@.len(),
            projections_of(result@) == without_repeats(ordered.take(k as int)),
        decreases positions@.len() - k,
    {
        let next = projections[positions[k]];
        proof {
            assert(ordered.take(k + 1).drop_last() =~= ordered.take(k as int));
            assert(ordered.take(k + 1).last() == *next);
        }
        let count = result.len();
        let repeated = count > 0 && result[count - 1].facts.path == next.facts.path;
        if !repeated {
            let ghost before = result@;
            result.push(next);
            proof {
                assert(projections_of(result@) =~= projections_of(before).push(*next));
            }
        }
        k = k + 1;
    }
    proof {
        assert(ordered.take(k as int) =~= ordered);
    }
    result
}

/// Dropping repetitions drops no path.
proof fn lemma_repeats_keep_paths(projections: Seq<SemanticProjection>, k: int) -> (m: int)
    requires
        0 <= k < projections.len(),
    ensures
        0 <= m < without_repeats(projections).len(),
        without_repeats(projections)[m].facts.path@ == projections[k].facts.path@,
    decreases projections.len(),
{
    let rest = without_repeats(projections.drop_last());
    if k < projections.len() - 1 {
        lemma_repeats_keep_paths(projections.drop_last(), k)
    } else if rest.len() > 0 && rest.last().facts.path@ == projections.last().facts.path@ {
        rest.len() - 1
    } else {
        rest.len() as int
    }
}

/// What remains without repetitions was there before.
proof fn lemma_repeats_add_nothing(projections: Seq<SemanticProjection>, m: int) -> (k: int)
    requires
        0 <= m < without_repeats(projections).len(),
    ensures
        0 <= k < projections.len(),
        projections[k] == without_repeats(projections)[m],
    decreases projections.len(),
{
    let rest = without_repeats(projections.drop_last());
    if m < rest.len() {
        lemma_repeats_add_nothing(projections.drop_last(), m)
    } else {
        projections.len() - 1
    }
}

/// A neighborhood holds the path of every projection that it is made of, and every
/// projection in it is one of them.
pub proof fn lemma_neighborhood_keeps_paths(
    neighborhood: Seq<SemanticProjection>,
    projections: Seq<SemanticProjection>,
)
    requires
        is_neighborhood(neighborhood, projections),
    ensures
        forall|i: int|
            #![trigger projections[i]]
            0 <= i < projections.len() ==> exists|m: int|
                0 <= m < neighborhood.len() && (#[trigger] neighborhood[m]).facts.path@
                    == projections[i].facts.path@,
        forall|m: int|
            0 <= m < neighborhood.len() ==> projections.contains(#[trigger] neighborhood[m]),
{
    let positions = choose|positions: Seq<usize>| #[trigger]
        stably_sorted(projections.len(), order_by_path(projections), positions) && neighborhood
            == without_repeats(arranged(projections, positions));
    let ordered = arranged(projections, positions);
    assert forall|i: int|
        #![trigger projections[i]]
        0 <= i < projections.len() implies exists|m: int|
        0 <= m < neighborhood.len() && (#[trigger] neighborhood[m]).facts.path@
            == projections[i].facts.path@ by {
        let k = crate::sorting::lemma_covers_each(positions, projections.len(), i);
        let m = lemma_repeats_keep_paths(ordered, k);
        assert(neighborhood[m].facts.path@ == projections[i].facts.path@);
    }
    assert forall|m: int| 0 <= m < neighborhood.len() implies projections.contains(
        #[trigger] neighborhood[m],
    ) by {
        let k = lemma_repeats_add_nothing(ordered, m);
        assert(projections[positions[k] as int] == neighborhood[m]);
    }
}

} // verus!
