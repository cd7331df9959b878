# vibrev

The shared half of a family of reverse-engineering engines that speak MCP and have a
command line, with its behaviour stated in contracts and proved by Verus. A tool is
described once; what the protocol serves, what the command line takes and what both
answer follow from that description.

## Layout

`src/` is the library. Every function in it is verified, but for the short wrappers
around calls into other crates, which are marked `external_body` and say above them
what is taken on trust.

| Modules | What they hold |
| --- | --- |
| `text`, `json`, `names`, `paths`, `ambient`, `weight` | texts, documents, name lists, paths, time and chance |
| `tool`, `schema`, `schema_laws`, `contract` | tools, what their schemas mean, how they are normalized and audited |
| `args`, `shape`, `command`, `cli`, `session` | the command line that a catalog of tools comes to, and the way back to arguments |
| `outcome`, `render`, `page` | what a call answers, and how it reads |
| `output`, `address`, `tasks`, `calendar` | the net under a large answer, and background work |
| `policy` | which tools a server offers |
| `token`, `bearer`, `access`, `transport` | the credential, the check of a request, the listener's settings and banner |
| `archive`, `skills`, `listing`, `skills_cli` | the documents that an engine carries, and the verbs that list and export them |
| `router` | what the tool attributes of an engine's impl block come to |
| `toy` | the tools of the reference engine |

`tests/` runs the library. `app/` is the reference engine around it: arguments,
files, sockets, the protocol crate's traits, and the token streams of the attribute
macro.

## Laws

What holds of the library as a whole stands in public proof functions beside the
functions it speaks of: that a refused request learns nothing of the credential, that
an archive gives back what went in, that a page leads to the next until everything
was seen, that a policy never offers what was excluded, and so on.
