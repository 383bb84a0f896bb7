# Achilles

Achilles takes an installed or packaged desktop application apart: which framework it is
built on and in which versions, how it is signed and hardened, and which published
advisories apply to what it bundles.

`src/` is the library, verified with Verus. It works on values: bytes, paths, an
in-memory tree.

| module     | what it does                                                              |
|------------|---------------------------------------------------------------------------|
| `pkg`      | reads AppImage, snap, deb, rpm and tarball packages into entries           |
| `vfs`      | the in-memory tree that everything else walks                              |
| `upload`   | which platform a tree follows, and where the application in it is           |
| `detect`   | framework and runtime versions                                             |
| `audit`    | signatures, entitlements, mitigations, sandbox, archive integrity          |
| `analyze`  | an upload from bytes to a result                                           |
| `cve`      | what to ask the advisory services, and what a report holds                 |
| `netmon`   | which packets of a capture belong to a process                             |
| `fixture`, `reports`, `assess` | a sample application, and the assessment of results on it |
| `text`, `num`, `bytes`, `path`, `version`, `plist`, `xml_date`, `object`, `sorted` | the ground they stand on |

`app/` is the command line around it: files, HTTP, processes, capture.
