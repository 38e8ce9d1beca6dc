//! What a page becomes in an index.

use vstd::prelude::*;

use crate::numbers::{decimal, decimal_text};
use crate::search::entities::{extract, extraction};
use crate::search::vector::{encode, encoded};
use crate::store::records::{PageVersion, PageVersionView, SplitEntry, SplitEntryView};
use crate::text::{same_text, texts};

verus! {

/// Which embedder made the vectors of a split. Vectors of two models are not comparable,
/// even where they have the same width.
#[derive(Debug)]
pub struct EmbeddingIdentity {
    /// Family of the provider.
    pub provider: String,
    /// Model, as the provider calls it.
    pub model: String,
    /// Width of every vector.
    pub dim: usize,
}

/// What an `EmbeddingIdentity` says.
pub struct IdentityView {
    pub provider: Seq<char>,
    pub model: Seq<char>,
    pub dim: nat,
}

impl View for EmbeddingIdentity {
    type V = IdentityView;

    open spec fn view(&self) -> IdentityView {
        IdentityView { provider: self.provider@, model: self.model@, dim: self.dim as nat }
    }
}

impl Clone for EmbeddingIdentity {
    fn clone(&self) -> (copy: Self)
        ensures
            copy == *self,
    {
        EmbeddingIdentity {
            provider: self.provider.clone(),
            model: self.model.clone(),
            dim: self.dim,
        }
    }
}

/// What an optional identity says.
pub open spec fn opt_identity(identity: Option<EmbeddingIdentity>) -> Option<IdentityView> {
    match identity {
        Some(i) => Some(i@),
        None => None,
    }
}

/// One searchable page version.
#[derive(Debug)]
pub struct PageDoc {
    /// Workspace.
    pub workspace_id: String,
    /// Project.
    pub project_id: String,
    /// Path of the page.
    pub path: String,
    /// Version of the page.
    pub page_id: String,
    /// Title.
    pub title: String,
    /// Markdown body.
    pub body: String,
    /// When it was last changed.
    pub updated_at_ms: i64,
    /// Identifiers that the page declares.
    pub entities: Vec<String>,
    /// Link targets that the page points at.
    pub links: Vec<String>,
    /// Bits of the embedding of its text, where a provider was configured.
    pub embedding: Option<Vec<u32>>,
    /// Which embedder made that.
    pub embedding_identity: Option<EmbeddingIdentity>,
}

/// What a `PageDoc` says.
pub struct DocView {
    pub workspace_id: Seq<char>,
    pub project_id: Seq<char>,
    pub path: Seq<char>,
    pub page_id: Seq<char>,
    pub title: Seq<char>,
    pub body: Seq<char>,
    pub updated_at_ms: i64,
    pub entities: Seq<Seq<char>>,
    pub links: Seq<Seq<char>>,
    pub embedding: Option<Seq<u32>>,
    pub embedding_identity: Option<IdentityView>,
}

/// What an optional embedding says.
pub open spec fn opt_embedding(embedding: Option<Vec<u32>>) -> Option<Seq<u32>> {
    match embedding {
        Some(list) => Some(list@),
        None => None,
    }
}

impl View for PageDoc {
    type V = DocView;

    open spec fn view(&self) -> DocView {
        DocView {
            workspace_id: self.workspace_id@,
            project_id: self.project_id@,
            path: self.path@,
            page_id: self.page_id@,
            title: self.title@,
            body: self.body@,
            updated_at_ms: self.updated_at_ms,
            entities: texts(self.entities@),
            links: texts(self.links@),
            embedding: opt_embedding(self.embedding),
            embedding_identity: opt_identity(self.embedding_identity),
        }
    }
}

/// What a list of documents says.
pub open spec fn docs_view(docs: Seq<PageDoc>) -> Seq<DocView> {
    Seq::new(docs.len(), |i: int| docs[i]@)
}

/// The document of a page version. It has no embedding: that takes a provider.
pub open spec fn doc_of(
    workspace_id: Seq<char>,
    project_id: Seq<char>,
    page: PageVersionView,
    updated_at_ms: i64,
) -> DocView {
    DocView {
        workspace_id,
        project_id,
        path: page.path,
        page_id: page.page_id,
        title: page.title,
        body: page.body,
        updated_at_ms,
        entities: extraction(page.body).entities,
        links: extraction(page.body).links,
        embedding: None,
        embedding_identity: None,
    }
}

impl PageDoc {
    /// The document of a page version.
    pub fn from_version(
        workspace_id: &str,
        project_id: &str,
        page: &PageVersion,
        updated_at_ms: i64,
    ) -> (doc: Self)
        ensures
            doc@ == doc_of(workspace_id@, project_id@, page@, updated_at_ms),
    {
        let found = extract(page.body.as_str());
        PageDoc {
            workspace_id: workspace_id.to_owned(),
            project_id: project_id.to_owned(),
            path: page.path.clone(),
            page_id: page.page_id.clone(),
            title: page.title.clone(),
            body: page.body.clone(),
            updated_at_ms,
            entities: found.entities,
            links: found.links,
            embedding: None,
            embedding_identity: None,
        }
    }

    /// The document with an embedding.
    pub fn with_embedding(self, embedding: Option<Vec<u32>>) -> (doc: Self)
        ensures
            doc@ == (DocView { embedding: opt_embedding(embedding), ..self@ }),
    {
        let mut doc: PageDoc = self;
        doc.embedding = embedding;
        doc
    }

    /// The document with the embedder that made its embedding.
    pub fn with_embedding_identity(self, identity: Option<EmbeddingIdentity>) -> (doc: Self)
        ensures
            doc@ == (DocView { embedding_identity: opt_identity(identity), ..self@ }),
    {
        let mut doc: PageDoc = self;
        doc.embedding_identity = identity;
        doc
    }
}

/// The text that a page is embedded from: title and body.
pub fn embedding_text(doc: &PageDoc) -> (text: String)
    ensures
        text@ == doc.title@ + "\n\n"@ + doc.body@,
{
    let mut text: String = doc.title.clone();
    text.append("\n\n");
    text.append(doc.body.as_str());
    text
}

/// What the documents of a batch say once they have their vectors.
pub open spec fn with_vectors(
    docs: Seq<DocView>,
    vectors: Seq<Vec<u32>>,
    identity: IdentityView,
) -> Seq<DocView> {
    Seq::new(
        docs.len(),
        |i: int|
            DocView {
                embedding: Some(vectors[i]@),
                embedding_identity: Some(identity),
                ..docs[i]
            },
    )
}

/// Gives each document of a batch its vector, and all of them the one embedder that made
/// them.
pub fn attach_vectors(
    docs: Vec<PageDoc>,
    vectors: Vec<Vec<u32>>,
    identity: &EmbeddingIdentity,
) -> (attached: Vec<PageDoc>)
    requires
        docs@.len() == vectors@.len(),
    ensures
        docs_view(attached@) == with_vectors(docs_view(docs@), vectors@, identity@),
{
    let ghost owed = with_vectors(docs_view(docs@), vectors@, identity@);
    let count: usize = docs.len();
    let mut left: Vec<PageDoc> = docs;
    let mut vecs: Vec<Vec<u32>> = vectors;
    let mut back: Vec<PageDoc> = Vec::new();
    let mut i: usize = count;
    assert(left@ =~= docs@.take(count as int));
    assert(vecs@ =~= vectors@.take(count as int));
    while i > 0
        invariant
            count == docs@.len(),
            count == vectors@.len(),
            i <= count,
            owed == with_vectors(docs_view(docs@), vectors@, identity@),
            left@ == docs@.take(i as int),
            vecs@ == vectors@.take(i as int),
            back@.len() == count - i,
            forall|j: int| 0 <= j < count - i ==> (#[trigger] back@[j])@ == owed[count - 1 - j],
        decreases i,
    {
        i -= 1;
        match (left.pop(), vecs.pop()) {
            (Some(doc), Some(vector)) => {
                assert(doc == docs@[i as int]);
                assert(vector == vectors@[i as int]);
                let one: PageDoc = doc.with_embedding(Some(vector)).with_embedding_identity(
                    Some(identity.clone()),
                );
                assert(one@ == owed[i as int]);
                back.push(one);
                assert(left@ =~= docs@.take(i as int));
                assert(vecs@ =~= vectors@.take(i as int));
            },
            _ => {},
        }
    }
    let mut attached: Vec<PageDoc> = Vec::new();
    let ghost reversed = back@;
    let mut k: usize = 0;
    while k < count
        invariant
            k <= count,
            count == reversed.len(),
            count == owed.len(),
            back@ == reversed.take(count - k),
            attached@.len() == k,
            forall|j: int| 0 <= j < count ==> (#[trigger] reversed[j])@ == owed[count - 1 - j],
            forall|j: int| 0 <= j < k ==> (#[trigger] attached@[j])@ == owed[j],
        decreases count - k,
    {
        match back.pop() {
            Some(doc) => {
                assert(doc == reversed[count - 1 - k]);
                attached.push(doc);
                assert(back@ =~= reversed.take(count - (k + 1)));
            },
            None => {},
        }
        k += 1;
    }
    assert(docs_view(attached@) =~= owed);
    attached
}

/// The embedder of the first document that names one.
pub open spec fn first_identity(docs: Seq<DocView>) -> Option<IdentityView>
    decreases docs.len(),
{
    if docs.len() == 0 {
        None
    } else if docs[0].embedding_identity is Some {
        docs[0].embedding_identity
    } else {
        first_identity(docs.skip(1))
    }
}

/// Whether some document has a vector.
pub open spec fn has_vectors(docs: Seq<DocView>) -> bool {
    exists|i: int| 0 <= i < docs.len() && (#[trigger] docs[i]).embedding is Some
}

/// The embedder that a batch names: that of the first document that names one. A batch
/// without vectors has nothing to state.
pub open spec fn named_embedder(docs: Seq<DocView>) -> Option<IdentityView> {
    if has_vectors(docs) {
        first_identity(docs)
    } else {
        None
    }
}

/// Whether some document has a vector.
fn holds_vectors(docs: &Vec<PageDoc>) -> (found: bool)
    ensures
        found == has_vectors(docs_view(docs@)),
{
    let ghost all = docs_view(docs@);
    let mut i: usize = 0;
    while i < docs.len()
        invariant
            all == docs_view(docs@),
            i <= docs@.len(),
            forall|j: int| 0 <= j < i ==> (#[trigger] all[j]).embedding is None,
        decreases docs@.len() - i,
    {
        if docs[i].embedding.is_some() {
            assert(all[i as int].embedding is Some);
            return true;
        }
        i += 1;
    }
    false
}

/// The embedder that a batch names.
pub fn batch_identity(docs: &Vec<PageDoc>) -> (identity: Option<EmbeddingIdentity>)
    ensures
        opt_identity(identity) == named_embedder(docs_view(docs@)),
{
    if !holds_vectors(docs) {
        return None;
    }
    let ghost all = docs_view(docs@);
    let mut i: usize = 0;
    assert(all.skip(0) =~= all);
    while i < docs.len()
        invariant
            all == docs_view(docs@),
            has_vectors(all),
            i <= docs@.len(),
            first_identity(all) == first_identity(all.skip(i as int)),
        decreases docs@.len() - i,
    {
        assert(all.skip(i as int)[0] == all[i as int]);
        assert(all.skip(i as int).skip(1) =~= all.skip(i + 1));
        if let Some(identity) = &docs[i].embedding_identity {
            return Some(identity.clone());
        }
        i += 1;
    }
    None
}

/// A batch that one embedder filled names that embedder, unless it is empty.
pub proof fn law_a_batch_names_its_embedder(
    docs: Seq<DocView>,
    vectors: Seq<Vec<u32>>,
    identity: IdentityView,
)
    requires
        docs.len() > 0,
    ensures
        named_embedder(with_vectors(docs, vectors, identity)) == Some(identity),
{
    assert(with_vectors(docs, vectors, identity)[0].embedding is Some);
}

/// Whether vectors of a split may be compared with those of an embedder.
pub open spec fn same_model(recorded: IdentityView, current: IdentityView) -> bool {
    recorded.provider == current.provider && recorded.model == current.model
}

/// What is said of a split whose vectors another model made.
pub open spec fn model_mismatch(
    prefix: Seq<char>,
    recorded: IdentityView,
    current: IdentityView,
) -> Seq<char> {
    "the split "@ + prefix + " was indexed with provider '"@ + recorded.provider + "', model '"@
        + recorded.model + "', dim "@ + decimal(recorded.dim)
        + ", but this machine would query with provider '"@ + current.provider + "', model '"@
        + current.model + "', dim "@ + decimal(current.dim)
        + "; embeddings from two models are not comparable, so the vector stream is refused rather than ranked \u{2014} re-embed the index by running `qm compact` with the current provider"@
}

/// Refuses to compare with vectors from another model. A split that records no embedder is
/// not judged.
pub fn ensure_split_model_matches(
    recorded: &Option<EmbeddingIdentity>,
    split_prefix: &str,
    current: &EmbeddingIdentity,
) -> (checked: Result<(), String>)
    ensures
        match checked {
            Ok(_) => *recorded matches Some(r) ==> same_model(r@, current@),
            Err(why) => *recorded matches Some(r) && !same_model(r@, current@) && why@
                == model_mismatch(split_prefix@, r@, current@),
        },
{
    let found: &EmbeddingIdentity = match recorded {
        Some(found) => found,
        None => {
            return Ok(());
        },
    };
    if same_text(found.provider.as_str(), current.provider.as_str()) && same_text(
        found.model.as_str(),
        current.model.as_str(),
    ) {
        return Ok(());
    }
    let mut why: String = "the split ".to_owned();
    why.append(split_prefix);
    why.append(" was indexed with provider '");
    why.append(found.provider.as_str());
    why.append("', model '");
    why.append(found.model.as_str());
    why.append("', dim ");
    why.append(decimal_text(found.dim as u64).as_str());
    why.append(", but this machine would query with provider '");
    why.append(current.provider.as_str());
    why.append("', model '");
    why.append(current.model.as_str());
    why.append("', dim ");
    why.append(decimal_text(current.dim as u64).as_str());
    why.append(
        "; embeddings from two models are not comparable, so the vector stream is refused rather than ranked \u{2014} re-embed the index by running `qm compact` with the current provider",
    );
    Err(why)
}

// ---- Index documents -----------------------------------------------------------------------------

/// Texts with a space between each two.
pub open spec fn joined(list: Seq<Seq<char>>) -> Seq<char>
    decreases list.len(),
{
    if list.len() == 0 {
        Seq::empty()
    } else if list.len() == 1 {
        list[0]
    } else {
        joined(list.drop_last()) + " "@ + list.last()
    }
}

/// Texts with a space between each two.
pub fn join(list: &Vec<String>) -> (text: String)
    ensures
        text@ == joined(texts(list@)),
{
    let ghost all = texts(list@);
    let mut text: String = String::new();
    let mut i: usize = 0;
    assert(all.take(0) =~= Seq::empty());
    while i < list.len()
        invariant
            all == texts(list@),
            i <= list@.len(),
            text@ == joined(all.take(i as int)),
        decreases list@.len() - i,
    {
        assert(all.take(i + 1).drop_last() =~= all.take(i as int));
        if i > 0 {
            text.append(" ");
        } else {
            assert(text@ + list[0]@ =~= list[0]@);
        }
        text.append(list[i].as_str());
        i += 1;
    }
    assert(all.take(i as int) =~= all);
    text
}

/// What the index stores of a page: its values by field, and its embedding.
#[derive(Debug)]
pub struct IndexDocument {
    /// Texts by field; a field can have several.
    pub texts: Vec<(&'static str, String)>,
    /// When the page was last changed.
    pub updated_at_ms: i64,
    /// Bytes of the embedding.
    pub embedding: Option<Vec<u8>>,
}

/// What fields say.
pub open spec fn fields_view(fields: Seq<(&'static str, String)>) -> Seq<(Seq<char>, Seq<char>)> {
    Seq::new(fields.len(), |i: int| (fields[i].0@, fields[i].1@))
}

/// The texts that are indexed for a page. Its links are indexed once more, each as a whole:
/// who links to exactly this path is no question for a text that is split into words.
pub open spec fn indexed_texts(doc: DocView) -> Seq<(Seq<char>, Seq<char>)> {
    seq![
        ("workspace_id"@, doc.workspace_id),
        ("project_id"@, doc.project_id),
        ("path"@, doc.path),
        ("page_id"@, doc.page_id),
        ("title"@, doc.title),
        ("body"@, doc.body),
        ("entities"@, joined(doc.entities)),
        ("links"@, joined(doc.links)),
    ] + Seq::new(doc.links.len(), |i: int| ("links_exact"@, doc.links[i]))
}

fn add_field(fields: &mut Vec<(&'static str, String)>, name: &'static str, text: String)
    ensures
        fields_view(final(fields)@) == fields_view(old(fields)@).push((name@, text@)),
{
    let ghost before = fields@;
    fields.push((name, text));
    assert(fields_view(fields@) =~= fields_view(before).push((name@, text@)));
}

/// What the index stores of a page. An embedding without numbers is refused: no search over
/// its split could ever be answered.
pub fn index_document(doc: &PageDoc) -> (stored: Result<IndexDocument, String>)
    ensures
        match stored {
            Ok(made) => doc@.embedding != Some(Seq::<u32>::empty()) && fields_view(made.texts@)
                == indexed_texts(doc@) && made.updated_at_ms == doc.updated_at_ms && match (
                made.embedding,
                doc.embedding,
            ) {
                (Some(bytes), Some(list)) => bytes@ == encoded(list@),
                (None, None) => true,
                _ => false,
            },
            Err(why) => doc@.embedding == Some(Seq::<u32>::empty()) && why@ == "page "@ + doc.path@
                + " has a zero-width embedding; a split containing it could never be searched"@,
        },
{
    let mut fields: Vec<(&'static str, String)> = Vec::new();
    assert(fields_view(fields@) =~= Seq::empty());
    add_field(&mut fields, "workspace_id", doc.workspace_id.clone());
    add_field(&mut fields, "project_id", doc.project_id.clone());
    add_field(&mut fields, "path", doc.path.clone());
    add_field(&mut fields, "page_id", doc.page_id.clone());
    add_field(&mut fields, "title", doc.title.clone());
    add_field(&mut fields, "body", doc.body.clone());
    add_field(&mut fields, "entities", join(&doc.entities));
    add_field(&mut fields, "links", join(&doc.links));
    let ghost owed = indexed_texts(doc@);
    assert(fields_view(fields@) =~= owed.take(8));
    let mut i: usize = 0;
    while i < doc.links.len()
        invariant
            i <= doc.links@.len(),
            owed == indexed_texts(doc@),
            fields_view(fields@) == owed.take(8 + i),
        decreases doc.links@.len() - i,
    {
        add_field(&mut fields, "links_exact", doc.links[i].clone());
        assert(owed.take(8 + i + 1) =~= owed.take(8 + i).push(owed[8 + i]));
        i += 1;
    }
    assert(owed.take(8 + i) =~= owed);
    match &doc.embedding {
        Some(list) => {
            if list.len() == 0 {
                assert(list@ =~= Seq::<u32>::empty());
                let mut why: String = "page ".to_owned();
                why.append(doc.path.as_str());
                why.append(
                    " has a zero-width embedding; a split containing it could never be searched",
                );
                return Err(why);
            }
            Ok(
                IndexDocument {
                    texts: fields,
                    updated_at_ms: doc.updated_at_ms,
                    embedding: Some(encode(list)),
                },
            )
        },
        None => Ok(
            IndexDocument { texts: fields, updated_at_ms: doc.updated_at_ms, embedding: None },
        ),
    }
}

/// The catalog entry of a split that was built and uploaded.
pub fn split_entry(writer_id: &str, seq: u64, prefix: &str, docs: usize, content_hash: &str) -> (
entry: SplitEntry)
    ensures
        entry@ == (SplitEntryView {
            writer_id: writer_id@,
            seq,
            prefix: prefix@,
            doc_count: docs as u64,
            content_hash: content_hash@,
        }),
{
    SplitEntry {
        writer_id: writer_id.to_owned(),
        seq,
        prefix: prefix.to_owned(),
        doc_count: docs as u64,
        content_hash: content_hash.to_owned(),
    }
}

} // verus!
