# pensieve

A navigable knowledge graph for the browser: collections and posts joined by
parent/child and association edges, key/value tags that infer further
associations, drilling into collections with a breadcrumb trail, tag filters,
and a "rail" mode that moves along edges.

The crate is written in Verus. `src/` is the verified library:

- `graph`: nodes, edges and the graph with its well-formedness (unique ids),
  node insertion, associations, tags and drag flags.
- `queries`: children, associations, parents, roots, the ids of children and
  the edges among visible nodes.
- `tags`: tag match scores, shared tags, inferred edges, nodes holding a tag,
  nodes sharing tags, subgraphs.
- `layout`: which nodes pull on a node in the force layout, and the text box
  size of a node from the byte lengths of its title and summary lines.
- `render`: breadcrumb titles and line, node cards, and the reading view of
  an article (Markdown rendered by pulldown-cmark).
- `nav`: the navigation state and every decision on it.
- `input`: held keys and the meaning of key and pointer events.
- `laws`, `chain`: properties across operations, proved.

`app/` is the browser side (wasm-bindgen, web-sys): the animation loop, the
canvas, the camera and layout physics in floating point, and the event
listeners, which hand each event to the library and act on its answer.
