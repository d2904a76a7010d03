# codex_fast

Starts the Codex desktop application with the fast mode of its interface unlocked. Nothing on
disk is changed: the scripts of the renderer are patched in memory, and handed to the
application over the pipe of the Chrome DevTools Protocol when it asks for them.

`src/` is the library, verified with [Verus](https://github.com/verus-lang/verus):

- `js_tokens`, `token_match`: the tokens of a script, and where a pattern of tokens stands in it
- `patch`: what is patched, the edits that do it, and the plan that is checked before it is used
- `asar`: the archive of the application, its files and the paths under which they are asked for
- `cdp`, `runtime`: the messages of the protocol, and what a session does about them
- `platform`: frames of the pipe, packages, bundles, manifests and command lines
- `options`, `report`: the command line and what is printed
- `json`, `digest`, `paths`, `text`, `text_map`: what the others are built from

Calls into `serde_json`, `sha2`, `base64` and `quick-xml` stand behind functions marked
`#[verifier::external_body]`, whose comments say what is relied on.

`app/` is the program around it: processes, pipes, files and the two desktop systems.
`tests/` runs the library.
