# local_deploy

Serves static websites under UUID subpaths: a management server (nginx for
the sites, an HTTP API to allocate a subpath and upload a `.tar.gz` into it)
and a stdio MCP server whose tools call that API.

- `src/` is the library, with its contracts and proofs: address normalisation, the UUID
  forms, packing a folder into a `.tar.gz`, member-path sanitising and the
  extraction plan of uploaded
  archives, the answers of the allocate and upload endpoints, and the
  client's requests, response handling and error texts.
- `app/` is the program around it: `local-deploy server`, `local-deploy mcp`
  and `local-deploy e2e <dist_dir>`; it does the I/O and carries out what the
  library decides.
- `tests/` runs the library on concrete values.
