# mcserver

Manage locally hosted Minecraft servers: create them from a platform's
download, run each in its own terminal-multiplexer session, list them
(flat or as a tree), tag them with their session state and last use, make
templates, and talk to them over the remote console.

## Layout

- `src/` is the verified library. Its modules:
  - `text`, `paths`, `collections`: characters, filesystem paths as
    components, and small maps and sets kept in vectors.
  - `config`: reading the KDL configuration, resolving server arguments,
    and editing the configuration document in place (adding aliases).
  - `session`: session names and the multiplexer's session listing.
  - `server_id`: how a server is named, and where each kind of name leads.
  - `server`: metadata files, timestamps, run commands, templates, jar
    names, remote-console arguments and removal plans.
  - `listing`, `tree`, `render`: choosing, tagging, ordering and printing
    servers, and the server tree.
  - `platforms`: picking versions from the platforms' answers and building
    download addresses.
  - `cli`: the plain choices of the command line.
- `app/` is the program around it: command-line parsing, files,
  processes, HTTP and the terminal.
- `tests/` exercises the library on concrete values.
