# maven-uploader

A Maven repository tool: it uploads a local repository, serves one as a
read-only mirror that falls back to upstream repositories, runs a Maven build
behind that mirror to collect its dependencies, and cleans up the state files
that Maven clients leave behind.

What is decided and computed is in the library under `src/`, which is verified
with Verus. `app/` is the program around it: arguments, the configuration file,
sockets, files, threads and the HTTP client. Paths that are not text it joins with
the standard library.

| module       | what it decides                                                     |
|--------------|---------------------------------------------------------------------|
| `http`       | where a request head ends, what it asks for, the text of replies    |
| `server`     | what is said in turn on a connection, and when it is closed         |
| `repository` | what a target names, where it may lie, what is tried when missing   |
| `metadata`   | the `maven-metadata.xml` documents made up from a directory         |
| `sha1`       | checksums                                                           |
| `url`, `xml` | percent-encoding and safe path components, text in XML              |
| `upload`     | the files of an artifact, what is left out, where and when to send  |
| `downloader` | which Maven is called, and with what settings and arguments         |
| `config`     | how command line, configuration file and defaults combine           |
| `cleanup`    | which files are mere state                                          |
| `paths`      | paths as text, by the rules of Unix and of Windows                  |
| `text`, `order`, `platform` | what the others are written in terms of              |

What is not proved is marked `external_body` or `assume_specification`: two
functions of `String` in `text`, and the `DashMap` in `upload` that remembers
which artifacts were queued.

Functions whose names begin with `law_` state properties of the library as a
whole.
