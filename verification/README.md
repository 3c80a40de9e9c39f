# qubit-infra-pages

Builds a project site from README files and hands it to GitHub Pages as a
gzip-compressed tar artifact.

- `src/` is the library, verified with Verus: the Markdown subset renderer
  and HTML escaping (`html`), paths as text (`path`), the configuration model
  with its defaults (`config`), the decisions of a site build (`site`), the
  artifact compression (`artifact`) and the command names and summaries
  (`cli`).
- `app/` is the command-line program: argument parsing, reading and writing
  files, archiving the pages directory, and parsing the JSON configuration.
- `tests/` exercises the library on concrete values.
