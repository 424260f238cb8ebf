# tiny_ai_shell

The verified core of `ta`, a command-line tool that turns a natural-language
request into a shell command with a local model served by Ollama, shows it,
warns about dangerous commands, and runs, copies, explains or rewrites it.

- `src/` is the library, with its behaviour stated in contracts and
  proved: danger rules (`safety`), model prompts and the streamed reply
  (`llm`), cleaning of the model's answer, settings and the configuration
  file (`config`), the working context (`context`), the command history
  with its timestamps (`logger`), the interactive prompt (`ui`), what each
  choice at the prompt leads to (`session`), what running a command does
  and prints (`executor`) and the clipboard tools with the order in which
  they are tried (`clipboard`).
- `app/main.rs` is the program: arguments, environment, files, terminal,
  HTTP and child processes.
- `tests/` exercises the library on concrete values.
