# gmx

A compiler for GameMaker: Studio 1.4 projects. `src/` is the library: each
function states in its contract what it returns, and Verus proves it. `app/` is
the command line around it.

| module | what it is |
| --- | --- |
| `gml` | the language: lexer, parser, macros, names, folding, bytecode and its chunks |
| `project`, `config`, `xml` | the documents of a project |
| `resources`, `assets`, `references`, `extensions`, `identifiers`, `loading` | the resources of a project and how they refer to one another |
| `masks`, `audio`, `textures`, `resource_chunks`, `wad`, `wad_laws`, `layout`, `compile` | what is written to `data.win` |
| `package`, `artifact`, `runner`, `inspection` | the files beside it, and what the commands decide |
| `cache`, `builds`, `digest`, `bytes`, `encoding`, `text`, `names`, `path`, `settings` | keys of builds, what is kept of them, bytes and texts |

Real numbers are held as the bits of floating point numbers; the operations on
them are functions that the caller passes. Files are read by the caller, and the
library is given what reading them gave. Paths are texts whose components are
separated by slashes; the caller turns the paths of its system into such texts.

Functions marked `external_body` call other crates (`image`, `md-5`, `quick-xml`,
`zip`) or the standard library, and say what is believed of them.

Laws that relate several functions are proof functions whose names begin with
`law_`.
