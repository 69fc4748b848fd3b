# agent_core

The rules of a conversational agent that runs by itself: when its jobs are due,
which webhooks may set one off, what a conversation looks like when a model is
asked, and what becomes of a turn that waits for delegated work.

`src/` is the library. Each function states what it returns in its contract, and
Verus proves it. `app/` reads and writes files, serves HTTP, runs the timers and
talks to models and channels; whatever it has to decide it asks the library.

| module | subject |
| --- | --- |
| `scheduling` | cron expressions, jobs and their runs, heartbeat tasks, webhooks |
| `session` | messages, conversations, their store and their manager |
| `session_context` | turns, suspension, yields, spoken answers |
| `skill_loader`, `skill_extract`, `skill_draft_reminder` | skills and their drafts |
| `json`, `time`, `pattern` | values, clocks and expressions of other crates |
| `text`, `split`, `number`, `order`, `duration`, `text_map`, `ids` | groundwork |

Statements that span several functions are the public proof functions whose names
begin with `law_`. What is believed of other crates without proof is said above
each function marked `external_body`.
