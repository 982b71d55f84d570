# SprayCC

SprayCC is a distributed build wrapper for large C++ builds on clusters that are managed by tools
like LSF or PBS Pro. A build step is prefixed with `spraycc run`; compilation and dependency
generation are run in the cluster, linking and archiving are run locally.

One executable is run in one of three modes:

* The *runner* submits a command line to the server, writes out what comes back, and exits with the
  exit code of the task.
* The *executor* runs in the cluster. It takes tasks from the server and sends back what they write,
  and the contents of the files that they generate.
* The *server* queues tasks, starts executors, gives out the tasks and forwards the results. It
  records how long each successful task took, and prefers the longest tasks on the next run.

## Layout

`src/` is the verified core. It does no input or output: it decides, and hands back what is to be
done.

| module | contents |
|---|---|
| `text` | decimal numbers, lists and paths |
| `clock` | points in time and spans of time |
| `ipc` | messages, task descriptions and framing |
| `config` | configuration, contact file, keys, limit on open files |
| `history` | elapsed times of earlier tasks |
| `queue` | submitted tasks, by priority and order of submission |
| `server` | the server's state and its steps |
| `server_model` | the same as mathematics, which the contracts speak of |
| `server_laws` | what holds of the server as a whole |
| `client` | command lines, and the messages that a runner gets |
| `exec` | the messages that an executor gets and sends |
| `task` | where the output files of a task go |

`app/` is the program around it: sockets, processes, files and the command line.

The functions whose names start with `law_` state what holds of all inputs. Calls into other crates
are wrapped, and the comment on each wrapper says what is relied on.
