# herobuild

Builds a set of repositories in containers. Each repository is described by a
TOML file: where its source comes from, where its output goes, and which other
repositories it depends on; names of repositories that are not described are
passed over. A repository is rebuilt when its source changes or
when one of its dependencies has been built, and never at the same time as one
of its dependencies or dependents.

`src/` is the library, verified with Verus. It decides, and leaves it to its
caller to act: most of it is state machines that say which call is to be made
next and take what came of it.

| Module | What it holds |
| --- | --- |
| `repository` | a repository, its mounts and its command |
| `deployment`, `git_job`, `submodules` | credentials, and the steps on a source directory |
| `initialize` | setting a repository up |
| `cache`, `docker`, `sync`, `containers` | what is remembered of a repository, and its containers |
| `dependencies`, `hb_state`, `state` | the graph of dependencies, and all repositories |
| `repo_build`, `worker`, `wait_flag`, `stats` | building, and the counts of builds |
| `text`, `name_map`, `paths` | texts, maps by name, paths |
| `outside` | calls of other crates, taken on trust |
| `git_laws`, `sync_laws`, `sync_again`, `build_laws`, `build_waits`, `repository_laws` | what holds of whole runs |

`app/` is the program around it: files, git, the container service, tasks and
locks.
