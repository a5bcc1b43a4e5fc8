# zoterable

Keeps the PDF attachments of Zotero libraries in step with a reMarkable tablet: new attachments go
to the tablet, into folders that follow the Zotero collections, and copies that were marked up on
the tablet come back to Zotero.

The library under `src/` is verified with Verus. It does no input or output of its own. It says
which request to send, reads what came back, and decides what comes next.

| Modules | What they hold |
| --- | --- |
| `text`, `number`, `keymap` | texts, decimal numbers, maps with texts for keys |
| `config` | settings, hosts, the places of files |
| `http`, `json`, `encoding` | requests as plain data, JSON objects, base64 and checksums |
| `zotero`, `throttle`, `upload` | requests to Zotero, paging, rate limits, uploads in three steps |
| `remarkable`, `archive`, `folders` | requests to the cloud, the PDF in an archive, folders on the tablet |
| `placement`, `name_laws` | names and folders of documents, and what holds of them |
| `state` | what is remembered from one run to the next |
| `events`, `sync_model`, `sync` | the course of a sync, as a specification and as code |
| `sync_order`, `sync_laws` | what holds of every sync |
| `baseline` | recording what is in Zotero already |

A sync and a baseline are machines: `sync::run` and `baseline::baseline` give the first step, and
each `answer` takes what came of the last action and gives the next one. Every step says what is to
be done, and what is to be told to the user before.

The contracts of the few functions that call into other crates (`zip`, `serde_json`, `base64`,
`md5`, `uuid`) and into std are taken on trust; each says in its doc comment what it claims.

`app/` performs the actions: it holds the HTTP client, the files and the printing.
