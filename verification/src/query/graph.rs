//! Lists and graphs of a whole codebase as text.

use vstd::prelude::*;

use crate::api::{
    CallEdge, CallGraph, DomainDescriptor, ExternalLink, FileTreeNode, GraphCluster, ImportEdge,
    Page, ProjectGraph, SearchHit, SymbolEdge, SymbolSearchHit, TagSchema, TypeEdge, TypeHierarchy,
    TypeNode, UnusedDefinition,
};
use crate::query::lookups::{about, failed, failed_text, number_or_zero, or_zero};
use crate::query::render::{
    hit_location, local_path, location_text, lookup_text, projects_text, render_hits,
    render_projects, render_tree, shown_path, slice_text, tree_text, truncation_note,
    truncation_text, GRAPH_LIST_CAP,
};
use crate::text::{
    copy_text, decimal, decimal_text, join_texts, lemma_rendered_is_a_row, lemma_rendered_next,
    lemma_rendered_none, optional, optional_or, rendered, separated, text_or, texts,
};

verus! {

/// A walk over the pages of a list, up to a cap.
pub struct Rows<T> {
    rows: Vec<T>,
    page: u32,
}

impl<T> Rows<T> {
    pub closed spec fn wf(self) -> bool {
        self.page <= self.rows@.len() < GRAPH_LIST_CAP
    }

    pub closed spec fn collected(self) -> Seq<T> {
        self.rows@
    }

    pub closed spec fn next_page(self) -> u32 {
        self.page
    }

    pub fn new() -> (walk: Rows<T>)
        ensures
            walk.wf(),
            walk.collected() == Seq::<T>::empty(),
            walk.next_page() == 0,
    {
        Rows { rows: Vec::new(), page: 0 }
    }

    /// The page that is needed next.
    pub fn page(&self) -> (page: u32)
        ensures
            page == self.next_page(),
    {
        self.page
    }

    /// Reads the page that was needed.
    pub fn take(self, page: Page<T>) -> (walk: RowWalk<T>)
        requires
            self.wf(),
        ensures
            match walk {
                RowWalk::More(next) => {
                    &&& next.wf()
                    &&& next.collected() == self.collected() + page.items@
                    &&& next.next_page() == self.next_page() + 1
                    &&& !is_complete(page.items@.len(), next.collected().len(), page.total)
                },
                RowWalk::Done(rows, total) => {
                    &&& rows@ == self.collected() + page.items@
                    &&& total == page.total
                    &&& is_complete(page.items@.len(), rows@.len(), page.total)
                },
            },
    {
        let Rows { mut rows, page: number } = self;
        let Page { mut items, total, number: _, size: _ } = page;
        let got: usize = items.len();
        rows.append(&mut items);
        if got == 0 || rows.len() as u64 >= total as u64 || rows.len() >= GRAPH_LIST_CAP {
            RowWalk::Done(rows, total)
        } else {
            RowWalk::More(Rows { rows, page: number + 1 })
        }
    }
}

/// Whether a walk has all it will get: an empty page, every row, or the cap.
pub open spec fn is_complete(got: nat, collected: nat, total: u32) -> bool {
    got == 0 || collected >= total || collected >= GRAPH_LIST_CAP
}

/// What comes after a page of rows was read.
pub enum RowWalk<T> {
    /// The next page is needed.
    More(Rows<T>),
    /// The rows, with how many the server reports.
    Done(Vec<T>, u32),
}

/// An import on its line.
pub open spec fn import_line(root: Option<Seq<char>>) -> spec_fn(ImportEdge) -> Seq<char> {
    |e: ImportEdge|
        shown_path(root, e.from@) + "  ->  "@ + shown_path(root, e.to@) + "  ("@ + e.import_path@
            + ")\n"@
}

/// The imports between files.
pub fn imports(reply: &Result<(Vec<ImportEdge>, u32), String>, root: Option<&str>) -> (text: String)
    ensures
        text@ == match reply {
            Err(e) => failed_text("imports"@, e@),
            Ok((edges, total)) => if edges@.len() == 0 {
                "(no import edges)"@
            } else {
                rendered(edges@, import_line(slice_text(root))) + truncation_text(
                    edges@.len(),
                    *total,
                )
            },
        },
{
    let (edges, total) = match reply {
        Ok((edges, total)) => (edges, *total),
        Err(e) => return failed("imports", e.as_str()),
    };
    if edges.len() == 0 {
        return copy_text("(no import edges)");
    }
    let ghost line = import_line(slice_text(root));
    let mut out = String::new();
    let mut i: usize = 0;
    proof {
        lemma_rendered_none(edges@, line);
    }
    while i < edges.len()
        invariant
            i <= edges@.len(),
            line == import_line(slice_text(root)),
            out@ == rendered(edges@.take(i as int), line),
        decreases edges@.len() - i,
    {
        let mut text = local_path(root, edges[i].from.as_str());
        text.push_str("  ->  ");
        text.push_str(local_path(root, edges[i].to.as_str()).as_str());
        text.push_str("  (");
        text.push_str(edges[i].import_path.as_str());
        text.push_str(")\n");
        out.push_str(text.as_str());
        proof {
            lemma_rendered_next(edges@, line, i as int);
        }
        i = i + 1;
    }
    assert(edges@.take(i as int) =~= edges@);
    truncation_note(&mut out, edges.len(), total);
    out
}

/// A binding of a reference to its definition on its line.
pub open spec fn binding_line(root: Option<Seq<char>>) -> spec_fn(SymbolEdge) -> Seq<char> {
    |e: SymbolEdge|
        shown_path(root, e.from_file@) + " `"@ + e.name@ + "`  ->  "@ + shown_path(root, e.to_file@)
            + "  ("@ + e.moniker@ + ")\n"@
}

/// The bindings of references to definitions.
pub fn symbol_edges(reply: &Result<(Vec<SymbolEdge>, u32), String>, root: Option<&str>) -> (text:
    String)
    ensures
        text@ == match reply {
            Err(e) => failed_text("symbol_edges"@, e@),
            Ok((edges, total)) => if edges@.len() == 0 {
                "(no symbol bindings)"@
            } else {
                rendered(edges@, binding_line(slice_text(root))) + truncation_text(
                    edges@.len(),
                    *total,
                )
            },
        },
{
    let (edges, total) = match reply {
        Ok((edges, total)) => (edges, *total),
        Err(e) => return failed("symbol_edges", e.as_str()),
    };
    if edges.len() == 0 {
        return copy_text("(no symbol bindings)");
    }
    let ghost line = binding_line(slice_text(root));
    let mut out = String::new();
    let mut i: usize = 0;
    proof {
        lemma_rendered_none(edges@, line);
    }
    while i < edges.len()
        invariant
            i <= edges@.len(),
            line == binding_line(slice_text(root)),
            out@ == rendered(edges@.take(i as int), line),
        decreases edges@.len() - i,
    {
        let mut text = local_path(root, edges[i].from_file.as_str());
        text.push_str(" `");
        text.push_str(edges[i].name.as_str());
        text.push_str("`  ->  ");
        text.push_str(local_path(root, edges[i].to_file.as_str()).as_str());
        text.push_str("  (");
        text.push_str(edges[i].moniker.as_str());
        text.push_str(")\n");
        out.push_str(text.as_str());
        proof {
            lemma_rendered_next(edges@, line, i as int);
        }
        i = i + 1;
    }
    assert(edges@.take(i as int) =~= edges@);
    truncation_note(&mut out, edges.len(), total);
    out
}

/// A link into another codebase on its line. The target's file is not below the
/// local checkout, so its path stays as it is.
pub open spec fn link_line(root: Option<Seq<char>>) -> spec_fn(ExternalLink) -> Seq<char> {
    |l: ExternalLink|
        shown_path(root, l.from_file@) + " `"@ + l.import_path@ + "`  ->  "@ + l.target_file@ + " `"@
            + l.target_name@ + "`  ("@ + l.ecosystem@ + " "@ + l.target_package@ + "/"@
            + l.descriptor@ + ", cb="@ + l.target_codebase_id@ + " conf="@ + l.confidence@ + ")\n"@
}

/// The imports that other codebases resolve.
pub fn external_links(reply: &Result<(Vec<ExternalLink>, u32), String>, root: Option<&str>) -> (text:
    String)
    ensures
        text@ == match reply {
            Err(e) => failed_text("external_links"@, e@),
            Ok((links, total)) => if links@.len() == 0 {
                "(no cross-codebase links)"@
            } else {
                rendered(links@, link_line(slice_text(root))) + truncation_text(
                    links@.len(),
                    *total,
                )
            },
        },
{
    let (links, total) = match reply {
        Ok((links, total)) => (links, *total),
        Err(e) => return failed("external_links", e.as_str()),
    };
    if links.len() == 0 {
        return copy_text("(no cross-codebase links)");
    }
    let ghost line = link_line(slice_text(root));
    let mut out = String::new();
    let mut i: usize = 0;
    proof {
        lemma_rendered_none(links@, line);
    }
    while i < links.len()
        invariant
            i <= links@.len(),
            line == link_line(slice_text(root)),
            out@ == rendered(links@.take(i as int), line),
        decreases links@.len() - i,
    {
        let link = &links[i];
        let mut text = local_path(root, link.from_file.as_str());
        text.push_str(" `");
        text.push_str(link.import_path.as_str());
        text.push_str("`  ->  ");
        text.push_str(link.target_file.as_str());
        text.push_str(" `");
        text.push_str(link.target_name.as_str());
        text.push_str("`  (");
        text.push_str(link.ecosystem.as_str());
        text.push_str(" ");
        text.push_str(link.target_package.as_str());
        text.push_str("/");
        text.push_str(link.descriptor.as_str());
        text.push_str(", cb=");
        text.push_str(link.target_codebase_id.as_str());
        text.push_str(" conf=");
        text.push_str(link.confidence.as_str());
        text.push_str(")\n");
        out.push_str(text.as_str());
        proof {
            lemma_rendered_next(links@, line, i as int);
        }
        i = i + 1;
    }
    assert(links@.take(i as int) =~= links@);
    truncation_note(&mut out, links.len(), total);
    out
}

/// The projects that were detected.
pub fn list_projects(reply: &Result<ProjectGraph, String>) -> (text: String)
    ensures
        text@ == match reply {
            Ok(graph) => projects_text(*graph),
            Err(e) => failed_text("list_projects"@, e@),
        },
{
    match reply {
        Ok(graph) => render_projects(graph),
        Err(e) => failed("list_projects", e.as_str()),
    }
}

/// The files as an indented tree.
pub fn file_tree(reply: &Result<Vec<FileTreeNode>, String>) -> (text: String)
    ensures
        text@ == match reply {
            Ok(nodes) => if nodes@.len() == 0 {
                "(no files in the catalog for this codebase)"@
            } else {
                tree_text(*nodes, 0, nodes@.len())
            },
            Err(e) => failed_text("file_tree"@, e@),
        },
{
    match reply {
        Ok(nodes) => {
            if nodes.len() == 0 {
                return copy_text("(no files in the catalog for this codebase)");
            }
            let mut out = String::new();
            render_tree(nodes, 0, &mut out);
            assert(Seq::<char>::empty() + tree_text(*nodes, 0, nodes@.len()) =~= tree_text(
                *nodes,
                0,
                nodes@.len(),
            ));
            out
        },
        Err(e) => failed("file_tree", e.as_str()),
    }
}

/// A tag of a domain on its line.
pub open spec fn tag_line() -> spec_fn(TagSchema) -> Seq<char> {
    |t: TagSchema| "    "@ + t.name@ + " ["@ + t.data_type@ + "]: "@ + t.description@ + "\n"@
}

fn render_tags(tags: &Vec<TagSchema>) -> (out: String)
    ensures
        out@ == rendered(tags@, tag_line()),
{
    let mut out = String::new();
    let mut i: usize = 0;
    proof {
        lemma_rendered_none(tags@, tag_line());
    }
    while i < tags.len()
        invariant
            i <= tags@.len(),
            out@ == rendered(tags@.take(i as int), tag_line()),
        decreases tags@.len() - i,
    {
        let mut text = copy_text("    ");
        text.push_str(tags[i].name.as_str());
        text.push_str(" [");
        text.push_str(tags[i].data_type.as_str());
        text.push_str("]: ");
        text.push_str(tags[i].description.as_str());
        text.push_str("\n");
        out.push_str(text.as_str());
        proof {
            lemma_rendered_next(tags@, tag_line(), i as int);
        }
        i = i + 1;
    }
    assert(tags@.take(i as int) =~= tags@);
    out
}

/// A domain with its tags.
pub open spec fn domain_block() -> spec_fn(DomainDescriptor) -> Seq<char> {
    |d: DomainDescriptor|
        d.id@ + "  ("@ + d.display_name@ + ")\n"@ + rendered(d.tag_schema@, tag_line())
}

/// The registered domains with their tags.
pub fn list_domains(reply: &Result<Vec<DomainDescriptor>, String>) -> (text: String)
    ensures
        text@ == match reply {
            Ok(domains) => if domains@.len() == 0 {
                "(no domains registered)"@
            } else {
                rendered(domains@, domain_block())
            },
            Err(e) => failed_text("list_domains"@, e@),
        },
{
    let domains = match reply {
        Ok(domains) => domains,
        Err(e) => return failed("list_domains", e.as_str()),
    };
    if domains.len() == 0 {
        return copy_text("(no domains registered)");
    }
    let mut out = String::new();
    let mut i: usize = 0;
    proof {
        lemma_rendered_none(domains@, domain_block());
    }
    while i < domains.len()
        invariant
            i <= domains@.len(),
            out@ == rendered(domains@.take(i as int), domain_block()),
        decreases domains@.len() - i,
    {
        let mut text = copy_text(domains[i].id.as_str());
        text.push_str("  (");
        text.push_str(domains[i].display_name.as_str());
        text.push_str(")\n");
        text.push_str(render_tags(&domains[i].tag_schema).as_str());
        out.push_str(text.as_str());
        proof {
            lemma_rendered_next(domains@, domain_block(), i as int);
        }
        i = i + 1;
    }
    assert(domains@.take(i as int) =~= domains@);
    out
}

/// A declaration that was found on its line.
pub open spec fn declaration_line(root: Option<Seq<char>>) -> spec_fn(SymbolSearchHit) -> Seq<char> {
    |hit: SymbolSearchHit|
        shown_path(root, hit.path@) + ":"@ + decimal(hit.line_start as nat) + "-"@ + decimal(
            hit.line_end as nat,
        ) + "  "@ + hit.qualified_name@ + "  "@ + hit.kind@ + "  ["@ + hit.language@ + " project="@
            + text_or(optional(hit.project), "-"@) + " score="@ + hit.score@ + "]\n"@
}

/// The declarations that match a query.
pub fn search_symbols(
    reply: &Result<Vec<SymbolSearchHit>, String>,
    query: &str,
    root: Option<&str>,
) -> (text: String)
    ensures
        text@ == match reply {
            Ok(hits) => if hits@.len() == 0 {
                about("no symbols match "@, query@)
            } else {
                rendered(hits@, declaration_line(slice_text(root)))
            },
            Err(e) => failed_text("search_symbols"@, e@),
        },
{
    let hits = match reply {
        Ok(hits) => hits,
        Err(e) => return failed("search_symbols", e.as_str()),
    };
    if hits.len() == 0 {
        return crate::query::lookups::message_about("no symbols match ", query);
    }
    let ghost line = declaration_line(slice_text(root));
    let mut out = String::new();
    let mut i: usize = 0;
    proof {
        lemma_rendered_none(hits@, line);
    }
    while i < hits.len()
        invariant
            i <= hits@.len(),
            line == declaration_line(slice_text(root)),
            out@ == rendered(hits@.take(i as int), line),
        decreases hits@.len() - i,
    {
        let hit = &hits[i];
        let mut text = local_path(root, hit.path.as_str());
        text.push_str(":");
        text.push_str(decimal_text(hit.line_start as u64).as_str());
        text.push_str("-");
        text.push_str(decimal_text(hit.line_end as u64).as_str());
        text.push_str("  ");
        text.push_str(hit.qualified_name.as_str());
        text.push_str("  ");
        text.push_str(hit.kind.as_str());
        text.push_str("  [");
        text.push_str(hit.language.as_str());
        text.push_str(" project=");
        text.push_str(optional_or(&hit.project, "-"));
        text.push_str(" score=");
        text.push_str(hit.score.as_str());
        text.push_str("]\n");
        out.push_str(text.as_str());
        proof {
            lemma_rendered_next(hits@, line, i as int);
        }
        i = i + 1;
    }
    assert(hits@.take(i as int) =~= hits@);
    out
}

/// A type on its line; one without a path is not of this codebase.
pub open spec fn type_line(root: Option<Seq<char>>) -> spec_fn(TypeNode) -> Seq<char> {
    |node: TypeNode|
        "  "@ + node.identity@ + "  "@ + node.kind@ + "  "@ + (match node.path {
            Some(path) => shown_path(root, path@) + ":"@ + decimal(
                number_or_zero(node.line_start) as nat,
            ) + "-"@ + decimal(number_or_zero(node.line_end) as nat),
            None => "external"@,
        }) + "\n"@
}

fn render_types(nodes: &Vec<TypeNode>, root: Option<&str>) -> (out: String)
    ensures
        out@ == rendered(nodes@, type_line(slice_text(root))),
{
    let ghost line = type_line(slice_text(root));
    let mut out = String::new();
    let mut i: usize = 0;
    proof {
        lemma_rendered_none(nodes@, line);
    }
    while i < nodes.len()
        invariant
            i <= nodes@.len(),
            line == type_line(slice_text(root)),
            out@ == rendered(nodes@.take(i as int), line),
        decreases nodes@.len() - i,
    {
        let node = &nodes[i];
        let location = match &node.path {
            Some(path) => {
                let mut place = local_path(root, path.as_str());
                place.push_str(":");
                place.push_str(decimal_text(or_zero(node.line_start) as u64).as_str());
                place.push_str("-");
                place.push_str(decimal_text(or_zero(node.line_end) as u64).as_str());
                place
            },
            None => copy_text("external"),
        };
        let mut text = copy_text("  ");
        text.push_str(node.identity.as_str());
        text.push_str("  ");
        text.push_str(node.kind.as_str());
        text.push_str("  ");
        text.push_str(location.as_str());
        text.push_str("\n");
        out.push_str(text.as_str());
        proof {
            lemma_rendered_next(nodes@, line, i as int);
        }
        i = i + 1;
    }
    assert(nodes@.take(i as int) =~= nodes@);
    out
}

/// A relation between types on its line.
pub open spec fn relation_line() -> spec_fn(TypeEdge) -> Seq<char> {
    |edge: TypeEdge|
        "  "@ + edge.subtype@ + " -> "@ + edge.supertype@ + "  "@ + edge.relation@ + " "@
            + edge.origin@ + " depth="@ + decimal(edge.depth as nat) + "\n"@
}

fn render_relations(edges: &Vec<TypeEdge>) -> (out: String)
    ensures
        out@ == rendered(edges@, relation_line()),
{
    let mut out = String::new();
    let mut i: usize = 0;
    proof {
        lemma_rendered_none(edges@, relation_line());
    }
    while i < edges.len()
        invariant
            i <= edges@.len(),
            out@ == rendered(edges@.take(i as int), relation_line()),
        decreases edges@.len() - i,
    {
        let mut text = copy_text("  ");
        text.push_str(edges[i].subtype.as_str());
        text.push_str(" -> ");
        text.push_str(edges[i].supertype.as_str());
        text.push_str("  ");
        text.push_str(edges[i].relation.as_str());
        text.push_str(" ");
        text.push_str(edges[i].origin.as_str());
        text.push_str(" depth=");
        text.push_str(decimal_text(edges[i].depth as u64).as_str());
        text.push_str("\n");
        out.push_str(text.as_str());
        proof {
            lemma_rendered_next(edges@, relation_line(), i as int);
        }
        i = i + 1;
    }
    assert(edges@.take(i as int) =~= edges@);
    out
}

/// A hierarchy of types.
pub open spec fn hierarchy_text(hierarchy: TypeHierarchy, root: Option<Seq<char>>) -> Seq<char> {
    "roots: "@ + separated(texts(hierarchy.roots@), ", "@) + "\ncomplete: "@
        + crate::query::requests::flag(hierarchy.complete) + (match hierarchy.caveat {
        Some(caveat) => " ("@ + caveat@ + ")"@,
        None => ""@,
    }) + "\nnodes ("@ + decimal(hierarchy.nodes@.len()) + ")\n"@ + rendered(
        hierarchy.nodes@,
        type_line(root),
    ) + "edges ("@ + decimal(hierarchy.edges@.len()) + ")\n"@ + rendered(
        hierarchy.edges@,
        relation_line(),
    )
}

pub fn render_type_hierarchy(hierarchy: &TypeHierarchy, root: Option<&str>) -> (out: String)
    ensures
        out@ == hierarchy_text(*hierarchy, slice_text(root)),
{
    let mut out = copy_text("roots: ");
    out.push_str(join_texts(&hierarchy.roots, ", ").as_str());
    out.push_str("\ncomplete: ");
    out.push_str(crate::query::requests::flag_text(hierarchy.complete));
    let caveat = match &hierarchy.caveat {
        Some(caveat) => {
            let mut text = copy_text(" (");
            text.push_str(caveat.as_str());
            text.push_str(")");
            text
        },
        None => copy_text(""),
    };
    out.push_str(caveat.as_str());
    out.push_str("\nnodes (");
    out.push_str(decimal_text(hierarchy.nodes.len() as u64).as_str());
    out.push_str(")\n");
    out.push_str(render_types(&hierarchy.nodes, root).as_str());
    out.push_str("edges (");
    out.push_str(decimal_text(hierarchy.edges.len() as u64).as_str());
    out.push_str(")\n");
    out.push_str(render_relations(&hierarchy.edges).as_str());
    out
}

/// The types above and below a type.
pub fn type_hierarchy(reply: &Result<TypeHierarchy, String>, root: Option<&str>) -> (text: String)
    ensures
        text@ == match reply {
            Ok(hierarchy) => hierarchy_text(*hierarchy, slice_text(root)),
            Err(e) => failed_text("type_hierarchy"@, e@),
        },
{
    match reply {
        Ok(hierarchy) => render_type_hierarchy(hierarchy, root),
        Err(e) => failed("type_hierarchy", e.as_str()),
    }
}

/// A call on its line.
pub open spec fn call_line() -> spec_fn(CallEdge) -> Seq<char> {
    |edge: CallEdge| "  "@ + edge.from@ + " -> "@ + edge.to@ + "\n"@
}

fn render_calls(edges: &Vec<CallEdge>) -> (out: String)
    ensures
        out@ == rendered(edges@, call_line()),
{
    let mut out = String::new();
    let mut i: usize = 0;
    proof {
        lemma_rendered_none(edges@, call_line());
    }
    while i < edges.len()
        invariant
            i <= edges@.len(),
            out@ == rendered(edges@.take(i as int), call_line()),
        decreases edges@.len() - i,
    {
        let mut text = copy_text("  ");
        text.push_str(edges[i].from.as_str());
        text.push_str(" -> ");
        text.push_str(edges[i].to.as_str());
        text.push_str("\n");
        out.push_str(text.as_str());
        proof {
            lemma_rendered_next(edges@, call_line(), i as int);
        }
        i = i + 1;
    }
    assert(edges@.take(i as int) =~= edges@);
    out
}

/// The calls around a symbol.
pub fn call_graph(reply: &Result<CallGraph, String>, symbol: &str, root: Option<&str>) -> (text:
    String)
    ensures
        text@ == match reply {
            Ok(graph) => if graph.nodes@.len() == 0 {
                about("no call graph for "@, symbol@)
            } else {
                "nodes ("@ + decimal(graph.nodes@.len()) + ")\n"@ + lookup_text(
                    graph.nodes@,
                    ""@,
                    root,
                ) + "edges ("@ + decimal(graph.edges@.len()) + ")\n"@ + rendered(
                    graph.edges@,
                    call_line(),
                )
            },
            Err(e) => failed_text("call_graph"@, e@),
        },
{
    let graph = match reply {
        Ok(graph) => graph,
        Err(e) => return failed("call_graph", e.as_str()),
    };
    if graph.nodes.len() == 0 {
        return crate::query::lookups::message_about("no call graph for ", symbol);
    }
    let mut out = copy_text("nodes (");
    out.push_str(decimal_text(graph.nodes.len() as u64).as_str());
    out.push_str(")\n");
    out.push_str(render_hits(&graph.nodes, "", root).as_str());
    out.push_str("edges (");
    out.push_str(decimal_text(graph.edges.len() as u64).as_str());
    out.push_str(")\n");
    out.push_str(render_calls(&graph.edges).as_str());
    out
}

/// A place of a group on its line.
pub open spec fn member_line(root: Option<Seq<char>>) -> spec_fn(SearchHit) -> Seq<char> {
    |hit: SearchHit|
        "  "@ + location_text(hit, root) + "  "@ + (match hit.qualified_symbol {
            Some(name) => name@,
            None => text_or(optional(hit.symbol), "-"@),
        }) + "\n"@
}

fn render_members(hits: &Vec<SearchHit>, root: Option<&str>) -> (out: String)
    ensures
        out@ == rendered(hits@, member_line(slice_text(root))),
{
    let ghost line = member_line(slice_text(root));
    let mut out = String::new();
    let mut i: usize = 0;
    proof {
        lemma_rendered_none(hits@, line);
    }
    while i < hits.len()
        invariant
            i <= hits@.len(),
            line == member_line(slice_text(root)),
            out@ == rendered(hits@.take(i as int), line),
        decreases hits@.len() - i,
    {
        let mut text = copy_text("  ");
        text.push_str(hit_location(&hits[i], root).as_str());
        text.push_str("  ");
        match &hits[i].qualified_symbol {
            Some(name) => text.push_str(name.as_str()),
            None => text.push_str(optional_or(&hits[i].symbol, "-")),
        }
        text.push_str("\n");
        out.push_str(text.as_str());
        proof {
            lemma_rendered_next(hits@, line, i as int);
        }
        i = i + 1;
    }
    assert(hits@.take(i as int) =~= hits@);
    out
}

/// A group of places with its members.
pub open spec fn group_block(root: Option<Seq<char>>) -> spec_fn(GraphCluster) -> Seq<char> {
    |group: GraphCluster|
        "group "@ + decimal(group.index as nat) + " ("@ + decimal(group.size as nat)
            + " locations)"@ + (match group.hash {
            Some(hash) => " hash="@ + hash@,
            None => ""@,
        }) + "\n"@ + rendered(group.chunks@, member_line(root))
}

/// Groups of places, or a message where there are none.
pub open spec fn clusters_text(
    operation: Seq<char>,
    label: Seq<char>,
    reply: Result<Vec<GraphCluster>, String>,
    root: Option<Seq<char>>,
) -> Seq<char> {
    match reply {
        Ok(groups) => if groups@.len() == 0 {
            "no "@ + label
        } else {
            rendered(groups@, group_block(root))
        },
        Err(e) => failed_text(operation, e@),
    }
}

fn graph_clusters(
    operation: &str,
    label: &str,
    reply: &Result<Vec<GraphCluster>, String>,
    root: Option<&str>,
) -> (text: String)
    ensures
        text@ == clusters_text(operation@, label@, *reply, slice_text(root)),
{
    let groups = match reply {
        Ok(groups) => groups,
        Err(e) => return failed(operation, e.as_str()),
    };
    if groups.len() == 0 {
        let mut text = copy_text("no ");
        text.push_str(label);
        return text;
    }
    let ghost block = group_block(slice_text(root));
    let mut out = String::new();
    let mut i: usize = 0;
    proof {
        lemma_rendered_none(groups@, block);
    }
    while i < groups.len()
        invariant
            i <= groups@.len(),
            block == group_block(slice_text(root)),
            out@ == rendered(groups@.take(i as int), block),
        decreases groups@.len() - i,
    {
        let group = &groups[i];
        let hash = match &group.hash {
            Some(hash) => {
                let mut text = copy_text(" hash=");
                text.push_str(hash.as_str());
                text
            },
            None => copy_text(""),
        };
        let mut text = copy_text("group ");
        text.push_str(decimal_text(group.index as u64).as_str());
        text.push_str(" (");
        text.push_str(decimal_text(group.size as u64).as_str());
        text.push_str(" locations)");
        text.push_str(hash.as_str());
        text.push_str("\n");
        text.push_str(render_members(&group.chunks, root).as_str());
        out.push_str(text.as_str());
        proof {
            lemma_rendered_next(groups@, block, i as int);
        }
        i = i + 1;
    }
    assert(groups@.take(i as int) =~= groups@);
    out
}

/// The cycles of a graph.
pub fn cycles(reply: &Result<Vec<GraphCluster>, String>, root: Option<&str>) -> (text: String)
    ensures
        text@ == clusters_text("cycles"@, "cycles"@, *reply, slice_text(root)),
{
    graph_clusters("cycles", "cycles", reply, root)
}

/// The groups of places with the same code.
pub fn duplicates(reply: &Result<Vec<GraphCluster>, String>, root: Option<&str>) -> (text: String)
    ensures
        text@ == clusters_text("duplicates"@, "duplicate groups"@, *reply, slice_text(root)),
{
    graph_clusters("duplicates", "duplicate groups", reply, root)
}

/// A definition without known uses, with why and with what that leaves open.
pub open spec fn unused_block(root: Option<Seq<char>>) -> spec_fn(UnusedDefinition) -> Seq<char> {
    |item: UnusedDefinition|
        location_text(item.definition, root) + "\n  reason: "@ + item.reason@ + "\n  caveat: "@
            + item.completeness_caveat@ + "\n"@ + (match item.definition.qualified_symbol {
            Some(identity) => "  symbol: "@ + identity@ + "\n"@,
            None => ""@,
        })
}

/// A page of definitions without known uses.
pub fn unused(reply: &Result<Page<UnusedDefinition>, String>, root: Option<&str>) -> (text: String)
    ensures
        text@ == match reply {
            Ok(page) => if page.items@.len() == 0 {
                "no unused definitions"@
            } else {
                rendered(page.items@, unused_block(slice_text(root))) + "page "@ + decimal(
                    page.number as nat,
                ) + ": "@ + decimal(page.items@.len()) + " of "@ + decimal(page.total as nat) + "\n"@
            },
            Err(e) => failed_text("unused"@, e@),
        },
{
    let page = match reply {
        Ok(page) => page,
        Err(e) => return failed("unused", e.as_str()),
    };
    if page.items.len() == 0 {
        return copy_text("no unused definitions");
    }
    let items = &page.items;
    let ghost block = unused_block(slice_text(root));
    let mut out = String::new();
    let mut i: usize = 0;
    proof {
        lemma_rendered_none(items@, block);
    }
    while i < items.len()
        invariant
            i <= items@.len(),
            block == unused_block(slice_text(root)),
            out@ == rendered(items@.take(i as int), block),
        decreases items@.len() - i,
    {
        let item = &items[i];
        let identity = match &item.definition.qualified_symbol {
            Some(identity) => {
                let mut text = copy_text("  symbol: ");
                text.push_str(identity.as_str());
                text.push_str("\n");
                text
            },
            None => copy_text(""),
        };
        let mut text = hit_location(&item.definition, root);
        text.push_str("\n  reason: ");
        text.push_str(item.reason.as_str());
        text.push_str("\n  caveat: ");
        text.push_str(item.completeness_caveat.as_str());
        text.push_str("\n");
        text.push_str(identity.as_str());
        out.push_str(text.as_str());
        proof {
            lemma_rendered_next(items@, block, i as int);
        }
        i = i + 1;
    }
    assert(items@.take(i as int) =~= items@);
    out.push_str("page ");
    out.push_str(decimal_text(page.number as u64).as_str());
    out.push_str(": ");
    out.push_str(decimal_text(items.len() as u64).as_str());
    out.push_str(" of ");
    out.push_str(decimal_text(page.total as u64).as_str());
    out.push_str("\n");
    out
}

/// Every import is shown with the file it stands in, the file it leads to and how it is written.
pub proof fn law_every_import_is_shown(items: Seq<ImportEdge>, root: Option<Seq<char>>)
    ensures
        rendered(items, import_line(root)) == Seq::new(
            items.len(),
            |i: int| shown_path(root, items[i].from@) + "  ->  "@
                + shown_path(root, items[i].to@) + "  ("@ + items[i].import_path@ + ")\n"@,
        ).flatten(),
{
    lemma_rendered_is_a_row(items, import_line(root));
    assert(Seq::new(items.len(), |i: int| import_line(root)(items[i])) =~= Seq::new(
        items.len(),
        |i: int| shown_path(root, items[i].from@) + "  ->  "@ + shown_path(root, items[i].to@)
            + "  ("@ + items[i].import_path@ + ")\n"@,
    ));
}

/// Every binding is shown with its file, its name, the file of the definition and its moniker.
pub proof fn law_every_binding_is_shown(items: Seq<SymbolEdge>, root: Option<Seq<char>>)
    ensures
        rendered(items, binding_line(root)) == Seq::new(
            items.len(),
            |i: int| shown_path(root, items[i].from_file@) + " `"@ + items[i].name@
                + "`  ->  "@ + shown_path(root, items[i].to_file@) + "  ("@ + items[i].moniker@
                + ")\n"@,
        ).flatten(),
{
    lemma_rendered_is_a_row(items, binding_line(root));
    assert(Seq::new(items.len(), |i: int| binding_line(root)(items[i])) =~= Seq::new(
        items.len(),
        |i: int| shown_path(root, items[i].from_file@) + " `"@ + items[i].name@ + "`  ->  "@
            + shown_path(root, items[i].to_file@) + "  ("@ + items[i].moniker@ + ")\n"@,
    ));
}

/// Every link to another codebase is shown; only its own file has a local path.
pub proof fn law_every_link_is_shown(items: Seq<ExternalLink>, root: Option<Seq<char>>)
    ensures
        rendered(items, link_line(root)) == Seq::new(
            items.len(),
            |i: int| shown_path(root, items[i].from_file@) + " `"@ + items[i].import_path@
                + "`  ->  "@ + items[i].target_file@ + " `"@ + items[i].target_name@ + "`  ("@
                + items[i].ecosystem@ + " "@ + items[i].target_package@ + "/"@
                + items[i].descriptor@ + ", cb="@ + items[i].target_codebase_id@ + " conf="@
                + items[i].confidence@ + ")\n"@,
        ).flatten(),
{
    lemma_rendered_is_a_row(items, link_line(root));
    assert(Seq::new(items.len(), |i: int| link_line(root)(items[i])) =~= Seq::new(
        items.len(),
        |i: int| shown_path(root, items[i].from_file@) + " `"@ + items[i].import_path@
            + "`  ->  "@ + items[i].target_file@ + " `"@ + items[i].target_name@ + "`  ("@
            + items[i].ecosystem@ + " "@ + items[i].target_package@ + "/"@
            + items[i].descriptor@ + ", cb="@ + items[i].target_codebase_id@ + " conf="@
            + items[i].confidence@ + ")\n"@,
    ));
}

/// Every tag of a domain is shown with its type and its meaning.
pub proof fn law_every_tag_is_shown(items: Seq<TagSchema>)
    ensures
        rendered(items, tag_line()) == Seq::new(
            items.len(),
            |i: int| "    "@ + items[i].name@ + " ["@ + items[i].data_type@ + "]: "@
                + items[i].description@ + "\n"@,
        ).flatten(),
{
    lemma_rendered_is_a_row(items, tag_line());
    assert(Seq::new(items.len(), |i: int| tag_line()(items[i])) =~= Seq::new(
        items.len(),
        |i: int| "    "@ + items[i].name@ + " ["@ + items[i].data_type@ + "]: "@
            + items[i].description@ + "\n"@,
    ));
}

/// Every domain is shown with its tags below it.
pub proof fn law_every_domain_is_shown(items: Seq<DomainDescriptor>)
    ensures
        rendered(items, domain_block()) == Seq::new(
            items.len(),
            |i: int| items[i].id@ + "  ("@ + items[i].display_name@ + ")\n"@
                + rendered(items[i].tag_schema@, tag_line()),
        ).flatten(),
{
    lemma_rendered_is_a_row(items, domain_block());
    assert(Seq::new(items.len(), |i: int| domain_block()(items[i])) =~= Seq::new(
        items.len(),
        |i: int| items[i].id@ + "  ("@ + items[i].display_name@ + ")\n"@
            + rendered(items[i].tag_schema@, tag_line()),
    ));
}

/// Every declaration is shown with where it is, its name, kind, language, project and score.
pub proof fn law_every_declaration_is_shown(items: Seq<SymbolSearchHit>, root: Option<Seq<char>>)
    ensures
        rendered(items, declaration_line(root)) == Seq::new(
            items.len(),
            |i: int| shown_path(root, items[i].path@) + ":"@
                + decimal(items[i].line_start as nat) + "-"@
                + decimal(items[i].line_end as nat) + "  "@ + items[i].qualified_name@ + "  "@
                + items[i].kind@ + "  ["@ + items[i].language@ + " project="@
                + (if items[i].project is Some { items[i].project->0@ } else { "-"@ })
                + " score="@ + items[i].score@ + "]\n"@,
        ).flatten(),
{
    lemma_rendered_is_a_row(items, declaration_line(root));
    assert(Seq::new(items.len(), |i: int| declaration_line(root)(items[i])) =~= Seq::new(
        items.len(),
        |i: int| shown_path(root, items[i].path@) + ":"@ + decimal(items[i].line_start as nat)
            + "-"@ + decimal(items[i].line_end as nat) + "  "@ + items[i].qualified_name@
            + "  "@ + items[i].kind@ + "  ["@ + items[i].language@ + " project="@
            + (if items[i].project is Some { items[i].project->0@ } else { "-"@ }) + " score="@
            + items[i].score@ + "]\n"@,
    ));
}

/// Every type of a hierarchy is shown with where it is, or that it is external.
pub proof fn law_every_type_is_shown(items: Seq<TypeNode>, root: Option<Seq<char>>)
    ensures
        rendered(items, type_line(root)) == Seq::new(
            items.len(),
            |i: int| "  "@ + items[i].identity@ + "  "@ + items[i].kind@ + "  "@
                + (if items[i].path is Some { shown_path(root, items[i].path->0@) + ":"@
                + decimal((if items[i].line_start is Some { items[i].line_start->0 } else { 0u32 }) as nat)
                    + "-"@
                    + decimal((if items[i].line_end is Some { items[i].line_end->0 } else { 0u32 }) as nat) } else { "external"@ })
                    + "\n"@,
        ).flatten(),
{
    lemma_rendered_is_a_row(items, type_line(root));
    assert(Seq::new(items.len(), |i: int| type_line(root)(items[i])) =~= Seq::new(
        items.len(),
        |i: int| "  "@ + items[i].identity@ + "  "@ + items[i].kind@ + "  "@
            + (if items[i].path is Some { shown_path(root, items[i].path->0@) + ":"@
            + decimal((if items[i].line_start is Some { items[i].line_start->0 } else { 0u32 }) as nat)
                + "-"@
                + decimal((if items[i].line_end is Some { items[i].line_end->0 } else { 0u32 }) as nat) } else { "external"@ })
                + "\n"@,
    ));
}

/// Every relation of a hierarchy is shown from the subtype to the supertype.
pub proof fn law_every_relation_is_shown(items: Seq<TypeEdge>)
    ensures
        rendered(items, relation_line()) == Seq::new(
            items.len(),
            |i: int| "  "@ + items[i].subtype@ + " -> "@ + items[i].supertype@ + "  "@
                + items[i].relation@ + " "@ + items[i].origin@ + " depth="@
                + decimal(items[i].depth as nat) + "\n"@,
        ).flatten(),
{
    lemma_rendered_is_a_row(items, relation_line());
    assert(Seq::new(items.len(), |i: int| relation_line()(items[i])) =~= Seq::new(
        items.len(),
        |i: int| "  "@ + items[i].subtype@ + " -> "@ + items[i].supertype@ + "  "@
            + items[i].relation@ + " "@ + items[i].origin@ + " depth="@
            + decimal(items[i].depth as nat) + "\n"@,
    ));
}

/// Every call is shown from the caller to the callee.
pub proof fn law_every_call_is_shown(items: Seq<CallEdge>)
    ensures
        rendered(items, call_line()) == Seq::new(
            items.len(),
            |i: int| "  "@ + items[i].from@ + " -> "@ + items[i].to@ + "\n"@,
        ).flatten(),
{
    lemma_rendered_is_a_row(items, call_line());
    assert(Seq::new(items.len(), |i: int| call_line()(items[i])) =~= Seq::new(
        items.len(),
        |i: int| "  "@ + items[i].from@ + " -> "@ + items[i].to@ + "\n"@,
    ));
}

/// Every place of a group is shown with its qualified name, or else its symbol.
pub proof fn law_every_member_is_shown(items: Seq<SearchHit>, root: Option<Seq<char>>)
    ensures
        rendered(items, member_line(root)) == Seq::new(
            items.len(),
            |i: int| "  "@ + location_text(items[i], root) + "  "@
                + (if items[i].qualified_symbol is Some { items[i].qualified_symbol->0@ } else if items[i].symbol is Some { items[i].symbol->0@ } else { "-"@ })
                    + "\n"@,
        ).flatten(),
{
    lemma_rendered_is_a_row(items, member_line(root));
    assert(Seq::new(items.len(), |i: int| member_line(root)(items[i])) =~= Seq::new(
        items.len(),
        |i: int| "  "@ + location_text(items[i], root) + "  "@
            + (if items[i].qualified_symbol is Some { items[i].qualified_symbol->0@ } else if items[i].symbol is Some { items[i].symbol->0@ } else { "-"@ })
                + "\n"@,
    ));
}

/// Every group is shown with its number, its size, its hash where it has one, and its members.
pub proof fn law_every_group_is_shown(items: Seq<GraphCluster>, root: Option<Seq<char>>)
    ensures
        rendered(items, group_block(root)) == Seq::new(
            items.len(),
            |i: int| "group "@ + decimal(items[i].index as nat) + " ("@
                + decimal(items[i].size as nat) + " locations)"@
                + (if items[i].hash is Some { " hash="@ + items[i].hash->0@ } else { ""@ })
                + "\n"@ + rendered(items[i].chunks@, member_line(root)),
        ).flatten(),
{
    lemma_rendered_is_a_row(items, group_block(root));
    assert(Seq::new(items.len(), |i: int| group_block(root)(items[i])) =~= Seq::new(
        items.len(),
        |i: int| "group "@ + decimal(items[i].index as nat) + " ("@
            + decimal(items[i].size as nat) + " locations)"@
            + (if items[i].hash is Some { " hash="@ + items[i].hash->0@ } else { ""@ }) + "\n"@
            + rendered(items[i].chunks@, member_line(root)),
    ));
}

/// Every definition without known uses is shown with why, and with what that leaves open.
pub proof fn law_every_unused_definition_is_shown(items: Seq<UnusedDefinition>, root: Option<Seq<char>>)
    ensures
        rendered(items, unused_block(root)) == Seq::new(
            items.len(),
            |i: int| location_text(items[i].definition, root) + "\n  reason: "@
                + items[i].reason@ + "\n  caveat: "@ + items[i].completeness_caveat@ + "\n"@
                + (if items[i].definition.qualified_symbol is Some { "  symbol: "@
                + items[i].definition.qualified_symbol->0@ + "\n"@ } else { ""@ }),
        ).flatten(),
{
    lemma_rendered_is_a_row(items, unused_block(root));
    assert(Seq::new(items.len(), |i: int| unused_block(root)(items[i])) =~= Seq::new(
        items.len(),
        |i: int| location_text(items[i].definition, root) + "\n  reason: "@ + items[i].reason@
            + "\n  caveat: "@ + items[i].completeness_caveat@ + "\n"@
            + (if items[i].definition.qualified_symbol is Some { "  symbol: "@
            + items[i].definition.qualified_symbol->0@ + "\n"@ } else { ""@ }),
    ));
}

/// A hierarchy shows its roots, whether it is complete, every type and every
/// relation, with how many there are of each.
pub proof fn law_a_hierarchy_shows_types_and_relations(
    hierarchy: TypeHierarchy,
    root: Option<Seq<char>>,
)
    ensures
        hierarchy_text(hierarchy, root) == "roots: "@ + separated(
            texts(hierarchy.roots@),
            ", "@,
        ) + "\ncomplete: "@ + (if hierarchy.complete { "true"@ } else { "false"@ }) + (
        if hierarchy.caveat is Some { " ("@ + hierarchy.caveat->0@ + ")"@ } else { ""@ })
            + "\nnodes ("@ + decimal(hierarchy.nodes@.len()) + ")\n"@ + rendered(
            hierarchy.nodes@,
            type_line(root),
        ) + "edges ("@ + decimal(hierarchy.edges@.len()) + ")\n"@ + rendered(
            hierarchy.edges@,
            relation_line(),
        ),
{
}

/// Groups are shown where there are any; otherwise it is said that there are none,
/// or why the call failed.
pub proof fn law_groups_are_shown_or_missed(
    operation: Seq<char>,
    label: Seq<char>,
    groups: Vec<GraphCluster>,
    reason: String,
    root: Option<Seq<char>>,
)
    ensures
        groups@.len() == 0 ==> clusters_text(operation, label, Ok(groups), root) == "no "@ + label,
        groups@.len() > 0 ==> clusters_text(operation, label, Ok(groups), root) == rendered(
            groups@,
            group_block(root),
        ),
        clusters_text(operation, label, Err(reason), root) == operation + " failed: "@ + reason@,
{
}

/// A walk over the pages of a list goes on exactly while a page held rows, the
/// reported total is not reached and fewer than twenty thousand rows are collected.
pub proof fn law_a_walk_reads_all_rows(got: nat, collected: nat, total: u32)
    ensures
        !is_complete(got, collected, total) <==> got > 0 && collected < total && collected < 20000,
{
}

/// Edges, links and domains are listed in full with a note where the list was cut; a
/// lookup that finds none says so, and a failure is told under the name of the call.
pub proof fn law_graph_lookups_are_shown(
    edges: &Result<(Vec<ImportEdge>, u32), String>,
    bindings: &Result<(Vec<SymbolEdge>, u32), String>,
    links: &Result<(Vec<ExternalLink>, u32), String>,
    domains: &Result<Vec<DomainDescriptor>, String>,
    root: Option<&str>,
    imported: String,
    bound: String,
    linked: String,
    listed_domains: String,
)
    requires
        call_ensures(imports, (edges, root), imported),
        call_ensures(symbol_edges, (bindings, root), bound),
        call_ensures(external_links, (links, root), linked),
        call_ensures(list_domains, (domains,), listed_domains),
    ensures
        match edges {
            Ok((list, total)) => imported@ == if list@.len() == 0 {
                "(no import edges)"@
            } else {
                rendered(list@, import_line(slice_text(root))) + truncation_text(list@.len(), *total)
            },
            Err(e) => imported@ == "imports"@ + " failed: "@ + e@,
        },
        match bindings {
            Ok((list, total)) => bound@ == if list@.len() == 0 {
                "(no symbol bindings)"@
            } else {
                rendered(list@, binding_line(slice_text(root))) + truncation_text(
                    list@.len(),
                    *total,
                )
            },
            Err(e) => bound@ == "symbol_edges"@ + " failed: "@ + e@,
        },
        match links {
            Ok((list, total)) => linked@ == if list@.len() == 0 {
                "(no cross-codebase links)"@
            } else {
                rendered(list@, link_line(slice_text(root))) + truncation_text(list@.len(), *total)
            },
            Err(e) => linked@ == "external_links"@ + " failed: "@ + e@,
        },
        match domains {
            Ok(list) => listed_domains@ == if list@.len() == 0 {
                "(no domains registered)"@
            } else {
                rendered(list@, domain_block())
            },
            Err(e) => listed_domains@ == "list_domains"@ + " failed: "@ + e@,
        },
{
}

/// A call graph shows its nodes and then its edges, each with their number; unused
/// definitions are shown with the page that they are.
pub proof fn law_graphs_and_unused_definitions_are_shown(
    reply: &Result<CallGraph, String>,
    symbol: &str,
    root: Option<&str>,
    graph_shown: String,
    page: &Result<Page<UnusedDefinition>, String>,
    unused_shown: String,
)
    requires
        call_ensures(call_graph, (reply, symbol, root), graph_shown),
        call_ensures(unused, (page, root), unused_shown),
    ensures
        match reply {
            Ok(graph) => graph_shown@ == if graph.nodes@.len() == 0 {
                "no call graph for "@ + "`"@ + symbol@ + "`"@
            } else {
                "nodes ("@ + decimal(graph.nodes@.len()) + ")\n"@ + lookup_text(
                    graph.nodes@,
                    ""@,
                    root,
                ) + "edges ("@ + decimal(graph.edges@.len()) + ")\n"@ + rendered(
                    graph.edges@,
                    call_line(),
                )
            },
            Err(e) => graph_shown@ == "call_graph"@ + " failed: "@ + e@,
        },
        match page {
            Ok(found) => unused_shown@ == if found.items@.len() == 0 {
                "no unused definitions"@
            } else {
                rendered(found.items@, unused_block(slice_text(root))) + "page "@ + decimal(
                    found.number as nat,
                ) + ": "@ + decimal(found.items@.len()) + " of "@ + decimal(found.total as nat)
                    + "\n"@
            },
            Err(e) => unused_shown@ == "unused"@ + " failed: "@ + e@,
        },
{
}

} // verus!
