# llama-nexus

A gateway in front of servers for language models. It keeps a register of downstream servers, passes
conversations on to them, remembers what was said, checks from time to time whether the servers are
well, and connects to servers that offer tools.

`src/` is the library, written in Verus: the decisions of the gateway, each with a contract that says
what it comes to. Where a decision alternates with outside work (a request to another server, a
statement for the database, a question to the user), the library holds a state machine: it says what
is to be done next, and is told what came of it.

| module | what it decides |
| --- | --- |
| `api` | one exchange of a conversation, and looking back at a session |
| `prompt`, `json` | what a chat server is asked, and what it replied |
| `routing` | which model and which server a conversation goes to |
| `state`, `server` | which servers are registered, behind which services |
| `inline` | the servers behind the models that the settings name |
| `health` | which servers are checked, and what becomes of those that are not well |
| `storage`, `database` | the record of conversations, in memory or in a database |
| `config`, `mcp`, `loading` | loading the settings, connecting to tool servers, and what a whole load comes to |
| `logging` | where the log goes and how much of it there is |
| `clock`, `status`, `text`, `table`, `error` | what the others share |

The public proof functions whose names begin with `law_` state what holds across several of these
functions.

`app/` is the program around the library: the command line, the sockets, the database driver and the
clients. `tests/` holds examples.
